use vstd::prelude::*;
use vstd::string::{StrSliceExecFns, StringSliceAdditionalSpecFns};

use crate::text;

verus! {

broadcast use vstd::string::group_string_axioms;

/// One song of the library. Text fields are UTF-8 bytes; the file path is
/// the unique key. A duration is carried in milliseconds and the replay
/// gain as a multiplier in thousandths (`0` means unknown or disabled).
#[derive(Debug, Clone)]
pub struct Song {
    pub title: Vec<u8>,
    pub album: Vec<u8>,
    pub artist: Vec<u8>,
    pub album_artist: Vec<u8>,
    pub track_number: u16,
    pub disc_number: u16,
    pub path: Vec<u8>,
    pub duration_ms: u64,
    pub gain_milli: u32,
}

/// Everything a song holds, as one mathematical tuple.
pub type SongKey = (Seq<u8>, Seq<u8>, Seq<u8>, Seq<u8>, u16, u16, Seq<u8>, u64, u32);

impl Song {
    /// Everything a song holds, as one mathematical tuple.
    pub open spec fn key(self) -> SongKey {
        (
            self.title@,
            self.album@,
            self.artist@,
            self.album_artist@,
            self.track_number,
            self.disc_number,
            self.path@,
            self.duration_ms,
            self.gain_milli,
        )
    }
}

impl PartialEq for Song {
    fn eq(&self, other: &Song) -> (r: bool) {
        text::bytes_eq(&self.title, &other.title) && text::bytes_eq(&self.album, &other.album)
            && text::bytes_eq(&self.artist, &other.artist) && text::bytes_eq(
            &self.album_artist,
            &other.album_artist,
        ) && self.track_number == other.track_number && self.disc_number == other.disc_number
            && text::bytes_eq(&self.path, &other.path) && self.duration_ms == other.duration_ms
            && self.gain_milli == other.gain_milli
    }
}

impl vstd::std_specs::cmp::PartialEqSpecImpl for Song {
    open spec fn obeys_eq_spec() -> bool {
        true
    }

    open spec fn eq_spec(&self, other: &Song) -> bool {
        self.key() == other.key()
    }
}

/// The metadata keys a tag reader reports. Anything else is `Other` and is
/// ignored.
#[derive(Debug, PartialEq, Eq, Structural, Clone, Copy)]
pub enum TagKey {
    Title,
    Album,
    Artist,
    AlbumArtist,
    TrackNumber,
    DiscNumber,
    Other,
}

/// One metadata tag as a tag reader hands it over.
#[derive(Debug, Clone)]
pub struct Tag {
    pub key: TagKey,
    pub value: Vec<u8>,
}

pub open spec fn default_title() -> Seq<u8> {
    "Unknown Title".spec_bytes()
}

pub open spec fn default_album() -> Seq<u8> {
    "Unknown Album".spec_bytes()
}

pub open spec fn default_artist() -> Seq<u8> {
    "Unknown Artist".spec_bytes()
}

/// The value of the last tag carrying `key`, if any.
pub open spec fn last_value(tags: Seq<Tag>, key: TagKey) -> Option<Seq<u8>>
    decreases tags.len(),
{
    if tags.len() == 0 {
        None
    } else if tags.last().key == key {
        Some(tags.last().value@)
    } else {
        last_value(tags.drop_last(), key)
    }
}

pub open spec fn chosen_title(tags: Seq<Tag>) -> Seq<u8> {
    match last_value(tags, TagKey::Title) {
        Some(v) => v,
        None => default_title(),
    }
}

pub open spec fn chosen_album(tags: Seq<Tag>) -> Seq<u8> {
    match last_value(tags, TagKey::Album) {
        Some(v) => v,
        None => default_album(),
    }
}

/// The album artist wins over the track artist; with neither present the
/// artist is unknown.
pub open spec fn chosen_artist(tags: Seq<Tag>) -> Seq<u8> {
    match last_value(tags, TagKey::AlbumArtist) {
        Some(v) => v,
        None => match last_value(tags, TagKey::Artist) {
            Some(v) => v,
            None => default_artist(),
        },
    }
}

pub open spec fn chosen_album_artist(tags: Seq<Tag>) -> Seq<u8> {
    match last_value(tags, TagKey::AlbumArtist) {
        Some(v) => v,
        None => chosen_artist(tags),
    }
}

pub open spec fn chosen_track(tags: Seq<Tag>) -> u16 {
    match last_value(tags, TagKey::TrackNumber) {
        Some(v) => parse_field(v),
        None => 1,
    }
}

pub open spec fn chosen_disc(tags: Seq<Tag>) -> u16 {
    match last_value(tags, TagKey::DiscNumber) {
        Some(v) => parse_field(v),
        None => 1,
    }
}

/// Index of the first occurrence of `b`, or the length when absent.
pub open spec fn find_byte(s: Seq<u8>, b: u8) -> int
    decreases s.len(),
{
    if s.len() == 0 {
        0
    } else if s[0] == b {
        0
    } else {
        1 + find_byte(s.drop_first(), b)
    }
}

pub proof fn lemma_find_byte(s: Seq<u8>, b: u8)
    ensures
        0 <= find_byte(s, b) <= s.len(),
        find_byte(s, b) < s.len() ==> s[find_byte(s, b)] == b,
        forall|k: int| 0 <= k < find_byte(s, b) ==> s[k] != b,
    decreases s.len(),
{
    if s.len() > 0 && s[0] != b {
        lemma_find_byte(s.drop_first(), b);
        assert forall|k: int| 0 <= k < find_byte(s, b) implies s[k] != b by {
            if k > 0 {
                assert(s.drop_first()[k - 1] == s[k]);
            }
        }
    }
}

pub open spec fn is_digit(c: u8) -> bool {
    48 <= c <= 57
}

pub open spec fn all_digits(s: Seq<u8>) -> bool {
    forall|i: int| 0 <= i < s.len() ==> is_digit(#[trigger] s[i])
}

/// Numeric value of a digit string.
pub open spec fn digits_val(s: Seq<u8>) -> int
    decreases s.len(),
{
    if s.len() == 0 {
        0
    } else {
        digits_val(s.drop_last()) * 10 + (s.last() - 48)
    }
}

/// A track or disc tag of the form `n/m` counts as `n`; a plain number
/// counts as itself; anything unparsable (or too large) counts as 1.
pub open spec fn parse_field(s: Seq<u8>) -> u16 {
    let head = s.subrange(0, find_byte(s, 47));
    if head.len() > 0 && all_digits(head) && digits_val(head) <= u16::MAX {
        digits_val(head) as u16
    } else {
        1
    }
}

proof fn lemma_digits_val_push(s: Seq<u8>, d: u8)
    ensures
        digits_val(s.push(d)) == digits_val(s) * 10 + (d - 48),
{
    assert(s.push(d).drop_last() =~= s);
    assert(s.push(d).last() == d);
}

proof fn lemma_digits_val_nonneg(s: Seq<u8>)
    requires
        all_digits(s),
    ensures
        digits_val(s) >= 0,
    decreases s.len(),
{
    if s.len() > 0 {
        assert(all_digits(s.drop_last())) by {
            assert(forall|i: int|
                0 <= i < s.len() - 1 ==> #[trigger] s.drop_last()[i] == s[i]);
        }
        lemma_digits_val_nonneg(s.drop_last());
    }
}

/// Parse a track or disc field: the digits before a `/`, else 1.
pub fn parse_track_field(v: &Vec<u8>) -> (r: u16)
    ensures
        r == parse_field(v@),
{
    proof {
        lemma_find_byte(v@, 47);
    }
    // locate the first '/', if any
    let n = v.len();
    let mut end: usize = 0;
    while end < n && v[end] != 47
        invariant
            n == v@.len(),
            end <= n,
            forall|k: int| 0 <= k < end ==> v@[k] != 47,
        decreases n - end,
    {
        end = end + 1;
    }
    proof {
        // the scan and the spec agree on the cut position
        lemma_find_cut(v@, end as int);
    }
    let ghost head = v@.subrange(0, find_byte(v@, 47));
    if end == 0 {
        return 1;
    }
    // accumulate the digits; anything non-numeric or out of range yields 1
    let mut acc: u32 = 0;
    let mut over = false;
    let mut i: usize = 0;
    while i < end
        invariant
            n == v@.len(),
            end <= n,
            head == v@.subrange(0, end as int),
            find_byte(v@, 47) == end as int,
            i <= end,
            all_digits(head.subrange(0, i as int)),
            !over ==> acc == digits_val(head.subrange(0, i as int)) && acc <= u16::MAX,
            over ==> digits_val(head.subrange(0, i as int)) > u16::MAX,
        decreases end - i,
    {
        let c = v[i];
        if c < 48 || c > 57 {
            assert(!all_digits(head)) by {
                assert(head[i as int] == c && !is_digit(c));
            }
            assert(parse_field(v@) == 1);
            return 1;
        }
        let ghost pre = head.subrange(0, i as int);
        proof {
            assert(pre.push(head[i as int]) =~= head.subrange(0, i + 1));
            lemma_digits_val_push(pre, c);
        }
        if over {
            proof {
                lemma_digits_val_nonneg(pre);
            }
        } else {
            let next = acc * 10 + (c - 48) as u32;
            if next > u16::MAX as u32 {
                over = true;
            } else {
                acc = next;
            }
            proof {
                if next > u16::MAX {
                    assert(digits_val(head.subrange(0, i + 1)) == next);
                }
            }
        }
        i = i + 1;
    }
    assert(head.subrange(0, end as int) =~= head);
    if over {
        1
    } else {
        acc as u16
    }
}

proof fn lemma_find_cut(s: Seq<u8>, end: int)
    requires
        0 <= end <= s.len(),
        forall|k: int| 0 <= k < end ==> s[k] != 47,
        end < s.len() ==> s[end] == 47,
    ensures
        find_byte(s, 47) == end,
{
    lemma_find_byte_at(s, 47, end);
}

/// A scan that saw no `b` before `end`, and `b` at `end` unless at the very
/// end, found the first occurrence.
pub proof fn lemma_find_byte_at(s: Seq<u8>, b: u8, end: int)
    requires
        0 <= end <= s.len(),
        forall|k: int| 0 <= k < end ==> s[k] != b,
        end < s.len() ==> s[end] == b,
    ensures
        find_byte(s, b) == end,
{
    lemma_find_byte(s, b);
    let f = find_byte(s, b);
    if f < end {
        assert(s[f] == b);
    }
    if end < f {
        assert(s[end] != b);
    }
}

/// Build the canonical song record from what a tag reader produced for one
/// file: the last tag of each kind wins, the album artist outranks the
/// track artist, absent fields fall back to the unknown markers, and track
/// and disc numbers parse their `n/m` form.
pub fn song_from_tags(path: Vec<u8>, tags: &Vec<Tag>, duration_ms: u64, gain_milli: u32) -> (song:
    Song)
    ensures
        song.title@ == chosen_title(tags@),
        song.album@ == chosen_album(tags@),
        song.artist@ == chosen_artist(tags@),
        song.album_artist@ == chosen_album_artist(tags@),
        song.track_number == chosen_track(tags@),
        song.disc_number == chosen_disc(tags@),
        song.path@ == path@,
        song.duration_ms == duration_ms,
        song.gain_milli == gain_milli,
{
    let mut title: Option<Vec<u8>> = None;
    let mut album: Option<Vec<u8>> = None;
    let mut artist: Option<Vec<u8>> = None;
    let mut album_artist: Option<Vec<u8>> = None;
    let mut track: Option<Vec<u8>> = None;
    let mut disc: Option<Vec<u8>> = None;

    let n = tags.len();
    let mut i: usize = 0;
    while i < n
        invariant
            n == tags@.len(),
            i <= n,
            opt_view(title) == last_value(tags@.subrange(0, i as int), TagKey::Title),
            opt_view(album) == last_value(tags@.subrange(0, i as int), TagKey::Album),
            opt_view(artist) == last_value(tags@.subrange(0, i as int), TagKey::Artist),
            opt_view(album_artist) == last_value(tags@.subrange(0, i as int), TagKey::AlbumArtist),
            opt_view(track) == last_value(tags@.subrange(0, i as int), TagKey::TrackNumber),
            opt_view(disc) == last_value(tags@.subrange(0, i as int), TagKey::DiscNumber),
        decreases n - i,
    {
        let ghost pre = tags@.subrange(0, i as int);
        proof {
            assert(pre.push(tags@[i as int]) =~= tags@.subrange(0, i + 1));
            lemma_last_value_push(pre, tags@[i as int], TagKey::Title);
            lemma_last_value_push(pre, tags@[i as int], TagKey::Album);
            lemma_last_value_push(pre, tags@[i as int], TagKey::Artist);
            lemma_last_value_push(pre, tags@[i as int], TagKey::AlbumArtist);
            lemma_last_value_push(pre, tags@[i as int], TagKey::TrackNumber);
            lemma_last_value_push(pre, tags@[i as int], TagKey::DiscNumber);
        }
        let value = clone_bytes(&tags[i].value);
        match tags[i].key {
            TagKey::Title => title = Some(value),
            TagKey::Album => album = Some(value),
            TagKey::Artist => artist = Some(value),
            TagKey::AlbumArtist => album_artist = Some(value),
            TagKey::TrackNumber => track = Some(value),
            TagKey::DiscNumber => disc = Some(value),
            TagKey::Other => (),
        }
        i = i + 1;
    }
    assert(tags@.subrange(0, n as int) =~= tags@);

    let chosen_artist_v: Vec<u8> = match &album_artist {
        Some(v) => clone_bytes(v),
        None => match &artist {
            Some(v) => clone_bytes(v),
            None => default_artist_bytes(),
        },
    };
    let chosen_album_artist_v: Vec<u8> = match &album_artist {
        Some(v) => clone_bytes(v),
        None => clone_bytes(&chosen_artist_v),
    };

    Song {
        title: match title {
            Some(v) => v,
            None => default_title_bytes(),
        },
        album: match album {
            Some(v) => v,
            None => default_album_bytes(),
        },
        artist: chosen_artist_v,
        album_artist: chosen_album_artist_v,
        track_number: match &track {
            Some(v) => parse_track_field(v),
            None => 1,
        },
        disc_number: match &disc {
            Some(v) => parse_track_field(v),
            None => 1,
        },
        path,
        duration_ms,
        gain_milli,
    }
}

/// The view of an optional text.
pub open spec fn opt_view(v: Option<Vec<u8>>) -> Option<Seq<u8>> {
    match v {
        Some(b) => Some(b@),
        None => None,
    }
}

proof fn lemma_last_value_push(tags: Seq<Tag>, t: Tag, key: TagKey)
    ensures
        last_value(tags.push(t), key) == if t.key == key {
            Some(t.value@)
        } else {
            last_value(tags, key)
        },
{
    assert(tags.push(t).drop_last() =~= tags);
    assert(tags.push(t).last() == t);
}

/// An owned copy of a song, field for field.
pub fn clone_song(s: &Song) -> (r: Song)
    ensures
        r.key() == s.key(),
{
    Song {
        title: clone_bytes(&s.title),
        album: clone_bytes(&s.album),
        artist: clone_bytes(&s.artist),
        album_artist: clone_bytes(&s.album_artist),
        track_number: s.track_number,
        disc_number: s.disc_number,
        path: clone_bytes(&s.path),
        duration_ms: s.duration_ms,
        gain_milli: s.gain_milli,
    }
}

/// An owned copy of a byte text.
pub fn clone_bytes(v: &Vec<u8>) -> (r: Vec<u8>)
    ensures
        r@ == v@,
{
    let mut out: Vec<u8> = Vec::new();
    let n = v.len();
    let mut i: usize = 0;
    while i < n
        invariant
            n == v@.len(),
            i <= n,
            out@ =~= v@.subrange(0, i as int),
        decreases n - i,
    {
        out.push(v[i]);
        i = i + 1;
    }
    assert(v@.subrange(0, n as int) =~= v@);
    out
}

pub fn default_title_bytes() -> (v: Vec<u8>)
    ensures
        v@ == default_title(),
{
    proof {
        reveal_strlit("Unknown Title");
    }
    let s: &str = "Unknown Title";
    assert(vstd::string::is_ascii(s));
    s.as_bytes_vec()
}

pub fn default_album_bytes() -> (v: Vec<u8>)
    ensures
        v@ == default_album(),
{
    proof {
        reveal_strlit("Unknown Album");
    }
    let s: &str = "Unknown Album";
    assert(vstd::string::is_ascii(s));
    s.as_bytes_vec()
}

pub fn default_artist_bytes() -> (v: Vec<u8>)
    ensures
        v@ == default_artist(),
{
    proof {
        reveal_strlit("Unknown Artist");
    }
    let s: &str = "Unknown Artist";
    assert(vstd::string::is_ascii(s));
    s.as_bytes_vec()
}

/// The file extensions the scanner admits.
pub open spec fn is_audio(path: Seq<u8>) -> bool {
    ||| text::is_suffix(".flac".spec_bytes(), path)
    ||| text::is_suffix(".mp3".spec_bytes(), path)
    ||| text::is_suffix(".ogg".spec_bytes(), path)
    ||| text::is_suffix(".wav".spec_bytes(), path)
    ||| text::is_suffix(".m4a".spec_bytes(), path)
}

/// Whether a file path names an audio file the scanner should read.
pub fn is_audio_path(path: &Vec<u8>) -> (r: bool)
    ensures
        r == is_audio(path@),
{
    proof {
        reveal_strlit(".flac");
        reveal_strlit(".mp3");
        reveal_strlit(".ogg");
        reveal_strlit(".wav");
        reveal_strlit(".m4a");
    }
    let flac: &str = ".flac";
    let mp3: &str = ".mp3";
    let ogg: &str = ".ogg";
    let wav: &str = ".wav";
    let m4a: &str = ".m4a";
    assert(vstd::string::is_ascii(flac));
    assert(vstd::string::is_ascii(mp3));
    assert(vstd::string::is_ascii(ogg));
    assert(vstd::string::is_ascii(wav));
    assert(vstd::string::is_ascii(m4a));
    text::ends_with(path, &flac.as_bytes_vec()) || text::ends_with(path, &mp3.as_bytes_vec())
        || text::ends_with(path, &ogg.as_bytes_vec()) || text::ends_with(path, &wav.as_bytes_vec())
        || text::ends_with(path, &m4a.as_bytes_vec())
}

} // verus!
