use vstd::prelude::*;

use crate::index::Index;
use crate::library::Library;
use crate::song::Song;

verus! {

broadcast use vstd::seq_lib::group_to_multiset_ensures;

/// Which pane of the three-pane browser is active.
#[derive(Debug, PartialEq, Eq, Structural, Clone, Copy)]
pub enum BrowserMode {
    Artist,
    Album,
    Song,
}

impl BrowserMode {
    /// One pane to the right, stopping at the songs.
    pub fn next(&mut self)
        ensures
            *final(self) == (match *old(self) {
                BrowserMode::Artist => BrowserMode::Album,
                BrowserMode::Album => BrowserMode::Song,
                BrowserMode::Song => BrowserMode::Song,
            }),
    {
        match self {
            BrowserMode::Artist => {
                *self = BrowserMode::Album;
            },
            BrowserMode::Album => {
                *self = BrowserMode::Song;
            },
            BrowserMode::Song => (),
        }
    }

    /// One pane to the left, stopping at the artists.
    pub fn prev(&mut self)
        ensures
            *final(self) == (match *old(self) {
                BrowserMode::Artist => BrowserMode::Artist,
                BrowserMode::Album => BrowserMode::Artist,
                BrowserMode::Song => BrowserMode::Album,
            }),
    {
        match self {
            BrowserMode::Artist => (),
            BrowserMode::Album => {
                *self = BrowserMode::Artist;
            },
            BrowserMode::Song => {
                *self = BrowserMode::Album;
            },
        }
    }
}

/// The three browsing panes — artists, the selected artist's albums, the
/// selected album's songs — each a list with its own selection. The
/// caller refills a pane whenever the selection to its left moves.
pub struct Browser {
    pub mode: BrowserMode,
    pub artists: Index<Vec<u8>>,
    pub albums: Index<Vec<u8>>,
    pub songs: Index<Vec<u8>>,
}

impl Browser {
    pub open spec fn wf(self) -> bool {
        &&& self.artists.wf()
        &&& self.albums.wf()
        &&& self.songs.wf()
    }

    /// Open the browser on a list of artists; the first is selected when
    /// there is one.
    pub fn new(artists: Vec<Vec<u8>>) -> (b: Browser)
        ensures
            b.wf(),
            b.mode == BrowserMode::Artist,
            b.artists.data@ == artists@,
            b.artists.index == (if artists@.len() > 0 {
                Some(0usize)
            } else {
                None::<usize>
            }),
            b.albums.data@.len() == 0,
            b.songs.data@.len() == 0,
    {
        let sel: Option<usize> = if artists.len() > 0 {
            Some(0)
        } else {
            None
        };
        Browser {
            mode: BrowserMode::Artist,
            artists: Index::new(artists, sel),
            albums: Index::empty(),
            songs: Index::empty(),
        }
    }

    /// Refill the album pane (the artist selection moved); the first
    /// entry is selected when there is one.
    pub fn set_albums(&mut self, albums: Vec<Vec<u8>>)
        requires
            old(self).wf(),
        ensures
            final(self).wf(),
            final(self).albums.data@ == albums@,
            final(self).albums.index == (if albums@.len() > 0 {
                Some(0usize)
            } else {
                None::<usize>
            }),
            final(self).mode == old(self).mode,
            final(self).artists == old(self).artists,
            final(self).songs == old(self).songs,
    {
        let sel: Option<usize> = if albums.len() > 0 {
            Some(0)
        } else {
            None
        };
        self.albums = Index::new(albums, sel);
    }

    /// Refill the song pane (the album selection moved).
    pub fn set_songs(&mut self, songs: Vec<Vec<u8>>)
        requires
            old(self).wf(),
        ensures
            final(self).wf(),
            final(self).songs.data@ == songs@,
            final(self).songs.index == (if songs@.len() > 0 {
                Some(0usize)
            } else {
                None::<usize>
            }),
            final(self).mode == old(self).mode,
            final(self).artists == old(self).artists,
            final(self).albums == old(self).albums,
    {
        let sel: Option<usize> = if songs.len() > 0 {
            Some(0)
        } else {
            None
        };
        self.songs = Index::new(songs, sel);
    }

    /// Step the active pane's selection up (wrapping).
    pub fn up(&mut self)
        requires
            old(self).wf(),
        ensures
            final(self).wf(),
            final(self).mode == old(self).mode,
    {
        match self.mode {
            BrowserMode::Artist => self.artists.up(),
            BrowserMode::Album => self.albums.up(),
            BrowserMode::Song => self.songs.up(),
        }
    }

    /// Step the active pane's selection down (wrapping).
    pub fn down(&mut self)
        requires
            old(self).wf(),
        ensures
            final(self).wf(),
            final(self).mode == old(self).mode,
    {
        match self.mode {
            BrowserMode::Artist => self.artists.down(),
            BrowserMode::Album => self.albums.down(),
            BrowserMode::Song => self.songs.down(),
        }
    }

    pub fn next_mode(&mut self)
        requires
            old(self).wf(),
        ensures
            final(self).wf(),
            final(self).mode == (match old(self).mode {
                BrowserMode::Artist => BrowserMode::Album,
                BrowserMode::Album => BrowserMode::Song,
                BrowserMode::Song => BrowserMode::Song,
            }),
            final(self).artists == old(self).artists,
            final(self).albums == old(self).albums,
            final(self).songs == old(self).songs,
    {
        self.mode.next();
    }

    pub fn prev_mode(&mut self)
        requires
            old(self).wf(),
        ensures
            final(self).wf(),
            final(self).mode == (match old(self).mode {
                BrowserMode::Artist => BrowserMode::Artist,
                BrowserMode::Album => BrowserMode::Artist,
                BrowserMode::Song => BrowserMode::Album,
            }),
            final(self).artists == old(self).artists,
            final(self).albums == old(self).albums,
            final(self).songs == old(self).songs,
    {
        self.mode.prev();
    }

    pub fn is_song(&self) -> (r: bool)
        ensures
            r == (self.mode == BrowserMode::Song),
    {
        self.mode == BrowserMode::Song
    }

    /// The active pane's title.
    pub fn title(&self) -> (r: String)
        ensures
            self.mode == BrowserMode::Artist ==> r@ == "Artist"@,
            self.mode == BrowserMode::Album ==> r@ == "Album"@,
            self.mode == BrowserMode::Song ==> r@ == "Song"@,
    {
        match self.mode {
            BrowserMode::Artist => {
                proof {
                    reveal_strlit("Artist");
                }
                "Artist".to_owned()
            },
            BrowserMode::Album => {
                proof {
                    reveal_strlit("Album");
                }
                "Album".to_owned()
            },
            BrowserMode::Song => {
                proof {
                    reveal_strlit("Song");
                }
                "Song".to_owned()
            },
        }
    }

    /// The selected entry of the active pane, if any.
    pub fn selected(&self) -> (r: Option<&Vec<u8>>)
        requires
            self.wf(),
        ensures
            match self.mode {
                BrowserMode::Artist => match self.artists.index {
                    Some(i) => r is Some && r->0@ == self.artists.data@[i as int]@,
                    None => r is None,
                },
                BrowserMode::Album => match self.albums.index {
                    Some(i) => r is Some && r->0@ == self.albums.data@[i as int]@,
                    None => r is None,
                },
                BrowserMode::Song => match self.songs.index {
                    Some(i) => r is Some && r->0@ == self.songs.data@[i as int]@,
                    None => r is None,
                },
            },
    {
        match self.mode {
            BrowserMode::Artist => self.artists.selected(),
            BrowserMode::Album => self.albums.selected(),
            BrowserMode::Song => self.songs.selected(),
        }
    }
}

/// Resolve the browser's selection against the library: the whole of an
/// artist, the whole of an album, or the one song at the selected row of
/// the album's track list (the song pane is filled from that same list,
/// in the same order). Nothing selected resolves to nothing.
pub fn selected_songs(b: &Browser, lib: &Library) -> (r: Vec<Song>)
    requires
        b.wf(),
    ensures
        b.mode == BrowserMode::Artist ==> (match b.artists.index {
            Some(i) => crate::library::sorted_songs(r@) && crate::library::keys(
                r@,
            ).to_multiset() == crate::library::keys(
                lib.songs@.filter(crate::library::by_artist(b.artists.data@[i as int]@)),
            ).to_multiset(),
            None => r@.len() == 0,
        }),
        b.mode == BrowserMode::Album ==> (match (b.artists.index, b.albums.index) {
            (Some(i), Some(j)) => crate::library::sorted_songs(r@) && crate::library::keys(
                r@,
            ).to_multiset() == crate::library::keys(
                lib.songs@.filter(
                    crate::library::by_album(
                        b.albums.data@[j as int]@,
                        b.artists.data@[i as int]@,
                    ),
                ),
            ).to_multiset(),
            _ => r@.len() == 0,
        }),
        b.mode == BrowserMode::Song ==> r@.len() <= 1 && (r@.len() == 1 ==> (match (
            b.artists.index,
            b.albums.index,
        ) {
            (Some(i), Some(j)) => crate::library::keys(
                lib.songs@.filter(
                    crate::library::by_album(
                        b.albums.data@[j as int]@,
                        b.artists.data@[i as int]@,
                    ),
                ),
            ).to_multiset().contains(r@[0].key()),
            _ => false,
        })),
    {
    match b.mode {
        BrowserMode::Artist => {
            match b.artists.selected() {
                Some(artist) => lib.songs_for_artist(artist),
                None => Vec::new(),
            }
        },
        BrowserMode::Album => {
            match (b.artists.selected(), b.albums.selected()) {
                (Some(artist), Some(album)) => lib.songs_for_album(album, artist),
                _ => Vec::new(),
            }
        },
        BrowserMode::Song => {
            match (b.artists.selected(), b.albums.selected(), b.songs.selection()) {
                (Some(artist), Some(album), Some(row)) => {
                    let mut songs = lib.songs_for_album(album, artist);
                    let ghost songs0 = songs@;
                    if row < songs.len() {
                        let one = songs.remove(row);
                        proof {
                            assert(crate::library::keys(songs0)[row as int] == one.key());
                            assert(crate::library::keys(songs0).contains(one.key()));
                        }
                        let mut out: Vec<Song> = Vec::new();
                        out.push(one);
                        out
                    } else {
                        Vec::new()
                    }
                },
                _ => Vec::new(),
            }
        },
    }
}

} // verus!
