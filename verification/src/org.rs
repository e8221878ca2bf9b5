//! The song: sixteen tracks of notes on a grid of ticks, with the loop
//! that playback repeats.

use vstd::prelude::*;
use vstd::slice::slice_subrange;
use crate::le::{le_i32, le_u16, read_i32, read_u16};
use crate::stuff::{KEY_LIMIT, NO_CHANGE, PAN_LIMIT};

verus! {

/// Number of tracks of a song.
pub const TRACKS: usize = 16;

/// Number of melodic tracks; the tracks after them are drum channels.
pub const MELODIC_TRACKS: usize = 8;

/// Revision of the song format.
#[derive(Debug)]
pub enum Version {
    /// Earliest revision, without the envelope flag.
    Beta,
    Main,
    /// Revision with the extended drum set.
    Extended,
}

/// The ticks that playback repeats: `start` is the first of them, `end`
/// the first after them.
#[derive(Debug)]
pub struct LoopRange {
    pub start: i32,
    pub end: i32,
}

/// How an editor lays the grid out.
#[derive(Debug)]
pub struct Display {
    pub beats: u8,
    pub steps: u8,
}

/// The clock of a song.
#[derive(Debug)]
pub struct Timing {
    /// Length of a tick in milliseconds.
    pub wait: u16,
    pub loop_range: LoopRange,
}

/// What a track plays its notes on.
#[derive(Copy, Clone, Debug)]
pub struct Instrument {
    /// Frequency offset: 1000 leaves the pitch of a key as it is.
    pub freq: u16,
    /// Index of the waveform or drum sample in the sound bank.
    pub inst: u8,
    /// Envelope flag: not zero for an instrument whose notes decay.
    pub pipi: u8,
    /// Number of notes of the track.
    pub notes: u16,
}

/// An instrument and its notes, in the order of the file, which need
/// not be the order of their ticks.
#[derive(Debug)]
pub struct Track {
    pub inst: Instrument,
    pub notes: Vec<Note>,
}

/// One event of a track.
#[derive(Copy, Clone, Debug)]
pub struct Note {
    /// Tick at which the note takes effect.
    pub pos: i32,
    /// Pitch, or `NO_CHANGE` for an event that only sets volume or pan.
    pub key: u8,
    /// Length in ticks.
    pub len: u8,
    pub vol: u8,
    pub pan: u8,
}

/// A song: eight melodic tracks, then eight drum channels.
#[derive(Debug)]
pub struct Song {
    pub version: Version,
    pub time: Timing,
    pub tracks: [Track; 16],
}

impl LoopRange {
    /// The loop starts at a tick of the song and does not end before it
    /// starts. It may be empty: such a song is played once through.
    pub open spec fn wf(&self) -> bool {
        0 <= self.start <= self.end
    }
}

impl Note {
    /// The pan is one of the thirteen positions, or left as it is.
    pub open spec fn pan_ok(&self) -> bool {
        self.pan == NO_CHANGE || self.pan < PAN_LIMIT
    }

    /// The key lies in one of the eight octaves, or is left as it is.
    pub open spec fn key_ok(&self) -> bool {
        self.key == NO_CHANGE || self.key < KEY_LIMIT
    }

    /// What a melodic track can play.
    pub open spec fn melodic_ok(&self) -> bool {
        self.key_ok() && self.pan_ok()
    }

    pub fn is_melodic_ok(&self) -> (ok: bool)
        ensures
            ok == self.melodic_ok(),
    {
        (self.key == NO_CHANGE || self.key < KEY_LIMIT) && self.is_pan_ok()
    }

    pub fn is_pan_ok(&self) -> (ok: bool)
        ensures
            ok == self.pan_ok(),
    {
        self.pan == NO_CHANGE || self.pan < PAN_LIMIT
    }
}

/// Every note of a melodic track can be played.
pub open spec fn melodic_notes_ok(notes: Seq<Note>) -> bool {
    forall|i: int| 0 <= i < notes.len() ==> (#[trigger] notes[i]).melodic_ok()
}

/// Every note of a drum channel can be played.
pub open spec fn drum_notes_ok(notes: Seq<Note>) -> bool {
    forall|i: int| 0 <= i < notes.len() ==> (#[trigger] notes[i]).pan_ok()
}

impl Track {
    /// Whether the notes suit a melodic track, or a drum channel.
    pub open spec fn notes_ok(&self, melodic: bool) -> bool {
        if melodic {
            melodic_notes_ok(self.notes@)
        } else {
            drum_notes_ok(self.notes@)
        }
    }

    pub fn has_notes_ok(&self, melodic: bool) -> (ok: bool)
        ensures
            ok == self.notes_ok(melodic),
    {
        let mut i: usize = 0;
        while i < self.notes.len()
            invariant
                i <= self.notes.len(),
                forall|k: int|
                    0 <= k < i ==> if melodic {
                        (#[trigger] self.notes@[k]).melodic_ok()
                    } else {
                        self.notes@[k].pan_ok()
                    },
            decreases self.notes.len() - i,
        {
            let ok = if melodic {
                self.notes[i].is_melodic_ok()
            } else {
                self.notes[i].is_pan_ok()
            };
            if !ok {
                return false;
            }
            i += 1;
        }
        true
    }
}

impl Song {
    /// What the engine can play: the loop is well formed, the keys of the
    /// melodic tracks lie in the eight octaves, and every pan is one of
    /// the thirteen positions.
    pub open spec fn playable(&self) -> bool {
        &&& self.time.loop_range.wf()
        &&& forall|t: int| 0 <= t < TRACKS ==> (#[trigger] self.tracks[t]).notes_ok(t < MELODIC_TRACKS)
    }

    pub fn is_playable(&self) -> (ok: bool)
        ensures
            ok == self.playable(),
    {
        if !(0 <= self.time.loop_range.start && self.time.loop_range.start
            <= self.time.loop_range.end) {
            return false;
        }
        let mut t: usize = 0;
        while t < TRACKS
            invariant
                t <= TRACKS,
                self.time.loop_range.wf(),
                forall|k: int| 0 <= k < t ==> (#[trigger] self.tracks[k]).notes_ok(k < MELODIC_TRACKS),
            decreases TRACKS - t,
        {
            if !self.tracks[t].has_notes_ok(t < MELODIC_TRACKS) {
                return false;
            }
            t += 1;
        }
        true
    }
}

/// Why a run of bytes is not a song.
#[derive(Debug)]
pub enum LoadError {
    /// The bytes end before the song does.
    UnexpectedEof,
    /// The bytes do not start with the mark of a song.
    InvalidMagic,
}

/// Length of the mark that a song starts with.
pub const MAGIC_LEN: usize = 6;

/// Offset of the first instrument: after the mark, the tick length, the
/// two numbers of the grid and the two ends of the loop.
pub const INSTRUMENTS_AT: usize = 18;

/// Length of one instrument.
pub const INSTRUMENT_LEN: usize = 6;

/// Offset of the notes of the first track.
pub const NOTES_AT: usize = 114;

/// Bytes that one note takes: four for its tick, one each for key,
/// length, volume and pan.
pub const NOTE_LEN: usize = 8;

/// The revision that the mark names: `Org-0` and the digit 1, 2 or 3.
pub open spec fn version_of(data: Seq<u8>) -> Option<Version> {
    if data.len() >= MAGIC_LEN && data[0] == 0x4f && data[1] == 0x72 && data[2] == 0x67 && data[3]
        == 0x2d && data[4] == 0x30 {
        if data[5] == 0x31 {
            Some(Version::Beta)
        } else if data[5] == 0x32 {
            Some(Version::Main)
        } else if data[5] == 0x33 {
            Some(Version::Extended)
        } else {
            None
        }
    } else {
        None
    }
}

/// Instrument `i` of a song that holds its whole header.
pub open spec fn instrument_at(data: Seq<u8>, i: int) -> Instrument {
    let at = INSTRUMENTS_AT + INSTRUMENT_LEN * i;
    Instrument {
        freq: le_u16(data.subrange(at, at + 2)) as u16,
        inst: data[at + 2],
        pipi: data[at + 3],
        notes: le_u16(data.subrange(at + 4, at + 6)) as u16,
    }
}

/// Offset of the notes of track `i`: the tracks lie one after the
/// other, each as long as its instrument's number of notes says.
pub open spec fn track_start(data: Seq<u8>, i: int) -> int
    decreases i,
{
    if i <= 0 {
        NOTES_AT as int
    } else {
        track_start(data, i - 1) + NOTE_LEN * instrument_at(data, i - 1).notes
    }
}

/// Number of bytes that the song takes, as far as the bytes that are
/// there tell.
pub open spec fn song_len(data: Seq<u8>) -> int {
    if data.len() < NOTES_AT {
        NOTES_AT as int
    } else {
        track_start(data, TRACKS as int)
    }
}

/// Note `k` of a track of `count` notes that starts at `start`. A track
/// holds the ticks of all its notes, then all the keys, the lengths, the
/// volumes and the pans.
pub open spec fn note_of(data: Seq<u8>, start: int, count: int, k: int) -> Note {
    Note {
        pos: le_i32(data.subrange(start + 4 * k, start + 4 * k + 4)) as i32,
        key: data[start + 4 * count + k],
        len: data[start + 5 * count + k],
        vol: data[start + 6 * count + k],
        pan: data[start + 7 * count + k],
    }
}

/// The notes of track `i`.
pub open spec fn notes_of(data: Seq<u8>, i: int) -> Seq<Note> {
    let count = instrument_at(data, i).notes as int;
    Seq::new(count as nat, |k: int| note_of(data, track_start(data, i), count, k))
}

/// `song` is what `data` holds.
pub open spec fn decodes(data: Seq<u8>, song: Song) -> bool {
    &&& version_of(data) == Some(song.version)
    &&& song.time.wait == le_u16(data.subrange(6, 8))
    &&& song.time.loop_range.start == le_i32(data.subrange(10, 14))
    &&& song.time.loop_range.end == le_i32(data.subrange(14, 18))
    &&& forall|i: int|
        0 <= i < TRACKS ==> (#[trigger] song.tracks[i]).inst == instrument_at(data, i)
            && song.tracks[i].notes@ == notes_of(data, i)
}

/// The tracks lie in order, and none starts before the notes do.
pub proof fn lemma_track_start_grows(data: Seq<u8>, i: int, j: int)
    requires
        0 <= i <= j,
    ensures
        NOTES_AT <= track_start(data, i) <= track_start(data, j),
        track_start(data, j) <= NOTES_AT + j * 524280,
    decreases j,
{
    if j > 0 {
        if i < j {
            lemma_track_start_grows(data, i, j - 1);
        } else {
            lemma_track_start_grows(data, i - 1, j - 1);
        }
    }
}

/// Reads the instrument at offset `at`.
fn read_instrument(data: &[u8], i: usize) -> (r: Instrument)
    requires
        i < TRACKS,
        data@.len() >= NOTES_AT,
    ensures
        r == instrument_at(data@, i as int),
{
    let at = INSTRUMENTS_AT + INSTRUMENT_LEN * i;
    Instrument {
        freq: read_u16(slice_subrange(data, at, at + 2)),
        inst: data[at + 2],
        pipi: data[at + 3],
        notes: read_u16(slice_subrange(data, at + 4, at + 6)),
    }
}

/// Reads the `count` notes of the track that starts at `start`.
fn read_notes(data: &[u8], start: usize, count: usize) -> (r: Vec<Note>)
    requires
        count <= u16::MAX,
        start + NOTE_LEN * count <= data@.len(),
    ensures
        r@ == Seq::new(count as nat, |k: int| note_of(data@, start as int, count as int, k)),
{
    let size = data.len();
    let mut notes: Vec<Note> = Vec::with_capacity(count);
    let mut k: usize = 0;
    while k < count
        invariant
            k <= count,
            count <= u16::MAX,
            start + NOTE_LEN * count <= data@.len(),
            data@.len() == size,
            notes@.len() == k,
            forall|n: int|
                0 <= n < k ==> notes@[n] == note_of(data@, start as int, count as int, n),
        decreases count - k,
    {
        let at = start + 4 * k;
        notes.push(
            Note {
                pos: read_i32(slice_subrange(data, at, at + 4)),
                key: data[start + 4 * count + k],
                len: data[start + 5 * count + k],
                vol: data[start + 6 * count + k],
                pan: data[start + 7 * count + k],
            },
        );
        k += 1;
    }
    assert(notes@ =~= Seq::new(
        count as nat,
        |k: int| note_of(data@, start as int, count as int, k),
    ));
    notes
}

/// Takes the last track off the list.
fn take_track(tracks: &mut Vec<Track>) -> (t: Track)
    requires
        old(tracks)@.len() > 0,
    ensures
        t == old(tracks)@.last(),
        final(tracks)@ == old(tracks)@.drop_last(),
{
    match tracks.pop() {
        Some(t) => t,
        None => Track { inst: Instrument { freq: 0, inst: 0, pipi: 0, notes: 0 }, notes: Vec::new() },
    }
}

/// The sixteen tracks of a list as an array.
fn tracks_array(tracks: Vec<Track>) -> (r: [Track; 16])
    requires
        tracks@.len() == TRACKS,
    ensures
        r@ == tracks@,
{
    let mut rest = tracks;
    let t15 = take_track(&mut rest);
    let t14 = take_track(&mut rest);
    let t13 = take_track(&mut rest);
    let t12 = take_track(&mut rest);
    let t11 = take_track(&mut rest);
    let t10 = take_track(&mut rest);
    let t9 = take_track(&mut rest);
    let t8 = take_track(&mut rest);
    let t7 = take_track(&mut rest);
    let t6 = take_track(&mut rest);
    let t5 = take_track(&mut rest);
    let t4 = take_track(&mut rest);
    let t3 = take_track(&mut rest);
    let t2 = take_track(&mut rest);
    let t1 = take_track(&mut rest);
    let t0 = take_track(&mut rest);
    let r = [t0, t1, t2, t3, t4, t5, t6, t7, t8, t9, t10, t11, t12, t13, t14, t15];
    assert(r@ =~= tracks@);
    r
}

impl Song {
    /// Reads a song from the bytes of a file.
    ///
    /// The bytes hold the mark, the length of a tick, two numbers of the
    /// grid that play no part, the two ends of the loop, the sixteen
    /// instruments, and then the notes of each track. Bytes after the
    /// song are left unread.
    pub fn load_from(data: &[u8]) -> (r: Result<Song, LoadError>)
        ensures
            match r {
                Ok(song) => {
                    &&& version_of(data@) is Some
                    &&& song_len(data@) <= data@.len()
                    &&& decodes(data@, song)
                },
                Err(LoadError::UnexpectedEof) => data@.len() < MAGIC_LEN || (version_of(data@)
                    is Some && data@.len() < song_len(data@)),
                Err(LoadError::InvalidMagic) => data@.len() >= MAGIC_LEN && version_of(data@)
                    is None,
            },
    {
        if data.len() < MAGIC_LEN {
            return Err(LoadError::UnexpectedEof);
        }
        let marked = data[0] == 0x4f && data[1] == 0x72 && data[2] == 0x67 && data[3] == 0x2d
            && data[4] == 0x30;
        let version = if marked && data[5] == 0x31 {
            Version::Beta
        } else if marked && data[5] == 0x32 {
            Version::Main
        } else if marked && data[5] == 0x33 {
            Version::Extended
        } else {
            return Err(LoadError::InvalidMagic);
        };
        if data.len() < NOTES_AT {
            return Err(LoadError::UnexpectedEof);
        }
        let wait = read_u16(slice_subrange(data, 6, 8));
        let start = read_i32(slice_subrange(data, 10, 14));
        let end = read_i32(slice_subrange(data, 14, 18));
        let mut tracks: Vec<Track> = Vec::with_capacity(TRACKS);
        let mut at: usize = NOTES_AT;
        let mut i: usize = 0;
        while i < TRACKS
            invariant
                i <= TRACKS,
                data@.len() >= NOTES_AT,
                version_of(data@) == Some(version),
                wait == le_u16(data@.subrange(6, 8)),
                start == le_i32(data@.subrange(10, 14)),
                end == le_i32(data@.subrange(14, 18)),
                at == track_start(data@, i as int),
                at <= data@.len(),
                tracks@.len() == i,
                forall|k: int|
                    0 <= k < i ==> (#[trigger] tracks@[k]).inst == instrument_at(data@, k)
                        && tracks@[k].notes@ == notes_of(data@, k),
            decreases TRACKS - i,
        {
            let inst = read_instrument(data, i);
            let count = inst.notes as usize;
            proof {
                lemma_track_start_grows(data@, i as int, i as int);
                lemma_track_start_grows(data@, i as int + 1, TRACKS as int);
            }
            assert(track_start(data@, i + 1) == at + NOTE_LEN * count);
            if data.len() - at < NOTE_LEN * count {
                assert(data@.len() < song_len(data@));
                assert(version_of(data@) is Some);
                return Err(LoadError::UnexpectedEof);
            }
            let notes = read_notes(data, at, count);
            tracks.push(Track { inst, notes });
            at = at + NOTE_LEN * count;
            i += 1;
        }
        let song = Song {
            version,
            time: Timing { wait, loop_range: LoopRange { start, end } },
            tracks: tracks_array(tracks),
        };
        Ok(song)
    }
}

} // verus!
