//! The sequencer as a state machine over mathematical values: what one
//! tick does to the tracks and their voices, what one output frame does to
//! the clock, and how many frames a song lasts.
//!
//! The 136 voices are laid out by index: melodic voice
//! `octave * 8 + track + swap` for the eight tracks, the eight octaves and
//! the two copies of each (`swap` is 0 or 64), then the eight drum voices
//! from 128 on.

use vstd::prelude::*;
use crate::org::{Instrument, Note, Song, MELODIC_TRACKS, TRACKS};
use crate::stuff::{drum_frequency, key_frequency, pan_centibel, volume_centibel, NO_CHANGE};
use crate::voice::{frame_taps, stepped_voices, Tap, Voice, LENS, OFFS, SAMPLE_RATE};

verus! {

/// Number of voices.
pub const VOICES: usize = 136;

/// Index of the first drum voice, and the number of melodic voices.
pub const DRUM_VOICES: usize = 128;

/// Distance between the two copies of a melodic voice.
pub const SWAP: usize = 64;

/// Index of the first note at tick `pos` among the notes from index
/// `from` on, or the number of notes if there is none.
pub open spec fn first_match(notes: Seq<Note>, pos: int, from: int) -> int
    decreases notes.len() - from,
{
    if from < 0 || from >= notes.len() {
        notes.len() as int
    } else if notes[from].pos == pos {
        from
    } else {
        first_match(notes, pos, from + 1)
    }
}

/// The note that a track plays at tick `pos`: the first in the order of
/// the list, whatever follows it.
pub open spec fn note_at(notes: Seq<Note>, pos: int) -> Option<Note> {
    let i = first_match(notes, pos, 0);
    if i < notes.len() {
        Some(notes[i])
    } else {
        None
    }
}

/// The note that a track plays at tick `pos`, if it has one there.
pub fn find_note(notes: &Vec<Note>, pos: i32) -> (r: Option<Note>)
    ensures
        r == note_at(notes@, pos as int),
{
    let mut i: usize = 0;
    while i < notes.len()
        invariant
            i <= notes.len(),
            first_match(notes@, pos as int, 0) == first_match(notes@, pos as int, i as int),
        decreases notes.len() - i,
    {
        if notes[i].pos == pos {
            return Some(notes[i]);
        }
        i += 1;
    }
    None
}

/// A frequency offset read as a signed 16-bit number.
pub open spec fn signed_offset(freq: u16) -> int {
    if freq >= 32768 {
        freq - 65536
    } else {
        freq as int
    }
}

/// A frequency offset as the signed number that its 16 bits hold.
pub fn offset_of(freq: u16) -> (a: i16)
    ensures
        a == signed_offset(freq),
{
    if freq >= 32768 {
        (freq as i32 - 65536) as i16
    } else {
        freq as i16
    }
}

/// A frequency held in 32 bits without a sign: a negative one wraps.
pub open spec fn wrapped_frequency(freq: int) -> int {
    if freq < 0 {
        freq + 0x1_0000_0000
    } else {
        freq
    }
}

/// A frequency as the unsigned number that its 32 bits hold.
pub fn frequency_word(freq: i32) -> (r: u32)
    ensures
        r == wrapped_frequency(freq as int),
{
    if freq < 0 {
        (freq as i64 + 0x1_0000_0000) as u32
    } else {
        freq as u32
    }
}

/// The frequency a melodic voice is set to for `key`.
pub open spec fn melodic_frequency(inst: Instrument, key: u8) -> int {
    wrapped_frequency(key_frequency(key as int, signed_offset(inst.freq)))
}

/// Frames in a tick of `wait` milliseconds: 44.1 frames for each
/// millisecond, rounded down.
pub open spec fn frames_per_tick_of(wait: int) -> int {
    wait * 441 / 10
}

/// The octave that melodic voice `i` belongs to.
pub open spec fn octave_of_voice(i: int) -> int {
    (i % (SWAP as int)) / 8
}

/// A melodic voice of octave `octave`: it lies over an expanded
/// wavetable, its cursor lies inside the octave's region, and while it
/// plays that region is the one selected.
pub open spec fn melodic_voice_ok(v: Voice, octave: int) -> bool {
    &&& v.wf()
    &&& v.fits_octave(octave)
    &&& v.playing ==> v.base_pos == OFFS[octave] && v.len == LENS[octave]
}

/// A drum voice: it lies over the whole of a sample that has a first
/// frame.
pub open spec fn drum_voice_ok(v: Voice) -> bool {
    &&& v.wf()
    &&& v.base_pos == 0
    &&& v.len == v.data.len()
    &&& v.format.bit_depth > 0
    &&& 0 < (v.data.len() as int) / (v.format.bit_depth as int)
}

/// State of the sequencer.
#[verifier::ext_equal]
pub struct Sequencer {
    /// Ticks left of the note of each melodic track.
    pub lengths: Seq<int>,
    /// Which copy of its voices each melodic track uses: 0 or `SWAP`.
    pub swaps: Seq<int>,
    /// Key that each melodic track sounds, or `NO_CHANGE` at rest.
    pub keys: Seq<int>,
    pub voices: Seq<Voice>,
    /// Tick being played.
    pub play_pos: int,
    /// Frames played of this tick.
    pub frames_this_tick: int,
    pub frames_per_tick: int,
    /// Frames played in all.
    pub frames_done: int,
    /// Times the loop is repeated after it was played once.
    pub loops: int,
    /// Seconds added after the last repeat.
    pub extra: int,
}

impl Sequencer {
    /// The state suits `song`: the song can be played, every track has
    /// its count, its copy and its key, every voice is as its place in
    /// the layout needs it, and the clock has not counted more frames
    /// into the tick than the tick has.
    pub open spec fn wf(self, song: Song) -> bool {
        &&& song.playable()
        &&& self.lengths.len() == MELODIC_TRACKS
        &&& self.swaps.len() == MELODIC_TRACKS
        &&& self.keys.len() == MELODIC_TRACKS
        &&& forall|t: int|
            0 <= t < MELODIC_TRACKS ==> 0 <= #[trigger] self.lengths[t] <= u8::MAX
        &&& forall|t: int|
            0 <= t < MELODIC_TRACKS ==> (#[trigger] self.swaps[t] == 0 || self.swaps[t] == SWAP)
        &&& forall|t: int|
            0 <= t < MELODIC_TRACKS ==> (#[trigger] self.keys[t] == NO_CHANGE || 0 <= self.keys[t]
                < 96)
        &&& self.voices.len() == VOICES
        &&& forall|i: int|
            0 <= i < DRUM_VOICES ==> melodic_voice_ok(#[trigger] self.voices[i], octave_of_voice(i))
        &&& forall|i: int| DRUM_VOICES <= i < VOICES ==> drum_voice_ok(#[trigger] self.voices[i])
        &&& i32::MIN <= self.play_pos <= i32::MAX
        &&& self.frames_per_tick == frames_per_tick_of(song.time.wait as int)
        &&& 0 <= self.frames_this_tick <= self.frames_done
        &&& self.frames_per_tick > 0 ==> self.frames_this_tick < self.frames_per_tick
        &&& 0 <= self.loops
        &&& 0 <= self.extra
    }

    /// The two states agree on the clock and on the length of the song:
    /// on everything but the tracks and their voices.
    pub open spec fn same_clock(self, other: Sequencer) -> bool {
        &&& self.play_pos == other.play_pos
        &&& self.frames_this_tick == other.frames_this_tick
        &&& self.frames_per_tick == other.frames_per_tick
        &&& self.frames_done == other.frames_done
        &&& self.loops == other.loops
        &&& self.extra == other.extra
    }

    /// The two states agree on melodic track `t`: on its count, its copy
    /// and its key, and on every voice that belongs to it.
    pub open spec fn same_track(self, other: Sequencer, t: int) -> bool {
        &&& self.lengths[t] == other.lengths[t]
        &&& self.swaps[t] == other.swaps[t]
        &&& self.keys[t] == other.keys[t]
        &&& forall|i: int|
            0 <= i < DRUM_VOICES && i % 8 == t ==> #[trigger] self.voices[i] == other.voices[i]
    }

    /// Whether melodic track `track` sounds a note.
    pub open spec fn sounding(self, track: int) -> bool {
        self.keys[track] != NO_CHANGE
    }

    /// Index of the voice that melodic track `track` uses for the key it
    /// sounds.
    pub open spec fn active_voice(self, track: int) -> int {
        (self.keys[track] / 12) * 8 + track + self.swaps[track]
    }

    /// The state with voice `j` replaced.
    pub open spec fn with_voice(self, j: int, v: Voice) -> Sequencer {
        Sequencer { voices: self.voices.update(j, v), ..self }
    }

    /// The state after the voice of `track` was let go. A voice without
    /// envelope plays to the end of its region and stops; one with
    /// envelope goes on until its passes are used up.
    pub open spec fn released(self, inst: Instrument, track: int) -> Sequencer {
        let j = self.active_voice(track);
        if inst.pipi == 0 {
            self.with_voice(j, Voice { looping: false, ..self.voices[j] })
        } else {
            self
        }
    }

    /// The state of `track` when it has changed to the other copy of its
    /// voices.
    pub open spec fn swapped(self, track: int) -> Sequencer {
        Sequencer {
            swaps: self.swaps.update(
                track,
                if self.swaps[track] == 0 {
                    SWAP as int
                } else {
                    0
                },
            ),
            ..self
        }
    }

    /// The state after a note with a key began on `track`. If the track
    /// sounded, its voice is let go, which changes nothing of it but that
    /// it may stop looping, and the track changes to the other copy of
    /// its voices. The voice of the new key then has the key's octave
    /// selected, which gives a voice at rest of an instrument with an
    /// envelope its count of passes, and starts: it plays and loops at
    /// the key's frequency, and the track counts the note's length down.
    pub open spec fn triggered(self, inst: Instrument, track: int, note: Note) -> Sequencer {
        let swapped = if self.sounding(track) {
            self.released(inst, track).swapped(track)
        } else {
            self
        };
        let keyed = Sequencer { keys: swapped.keys.update(track, note.key as int), ..swapped };
        let j = keyed.active_voice(track);
        let started = Voice {
            playing: true,
            looping: true,
            frequency: melodic_frequency(inst, note.key),
            ..keyed.voices[j].select_octave(note.key as int / 12, inst.pipi != 0)
        };
        Sequencer {
            lengths: keyed.lengths.update(track, note.len as int),
            ..keyed.with_voice(j, started)
        }
    }

    /// The voice with the volume and pan of `note`, where the note has
    /// them.
    pub open spec fn shaped_voice(v: Voice, note: Note) -> Voice {
        Voice {
            volume: if note.vol != NO_CHANGE {
                volume_centibel(note.vol as int)
            } else {
                v.volume
            },
            pan: if note.pan != NO_CHANGE {
                pan_centibel(note.pan as int)
            } else {
                v.pan
            },
            ..v
        }
    }

    /// The state after the volume and pan of `note` were applied to the
    /// voice that `track` sounds. A track at rest takes neither.
    pub open spec fn shaped(self, track: int, note: Note) -> Sequencer {
        if self.sounding(track) {
            let j = self.active_voice(track);
            self.with_voice(j, Self::shaped_voice(self.voices[j], note))
        } else {
            self
        }
    }

    /// The state after `track` was checked for the end of its note: a
    /// sounding track whose count has run out lets its voice go and is at
    /// rest.
    pub open spec fn expired(self, inst: Instrument, track: int) -> Sequencer {
        if self.lengths[track] == 0 && self.sounding(track) {
            Sequencer {
                keys: self.keys.update(track, NO_CHANGE as int),
                ..self.released(inst, track)
            }
        } else {
            self
        }
    }

    /// The state with the count of `track` one lower, but not below zero.
    pub open spec fn aged(self, track: int) -> Sequencer {
        Sequencer {
            lengths: self.lengths.update(
                track,
                if self.lengths[track] > 0 {
                    self.lengths[track] - 1
                } else {
                    0
                },
            ),
            ..self
        }
    }

    /// The state after the note event of a melodic track, if it has one
    /// at this tick: a key starts a note, and volume and pan go to
    /// whatever voice the track then sounds.
    pub open spec fn melodic_event(self, inst: Instrument, track: int, note: Note) -> Sequencer {
        let begun = if note.key != NO_CHANGE {
            self.triggered(inst, track, note)
        } else {
            self
        };
        begun.shaped(track, note)
    }

    /// One tick of melodic track `track`.
    pub open spec fn melodic_step(self, song: Song, track: int) -> Sequencer {
        let inst = song.tracks[track].inst;
        let heard = match note_at(song.tracks[track].notes@, self.play_pos) {
            Some(note) => self.melodic_event(inst, track, note),
            None => self,
        };
        heard.expired(inst, track).aged(track)
    }

    /// The drum voice after `note`: a key restarts the sample at the
    /// key's frequency, and volume and pan are applied where the note has
    /// them.
    pub open spec fn drum_voice(v: Voice, note: Note) -> Voice {
        let struck = if note.key != NO_CHANGE {
            Voice {
                frequency: drum_frequency(note.key as int),
                position: 0,
                fraction: 0,
                playing: true,
                ..v
            }
        } else {
            v
        };
        Self::shaped_voice(struck, note)
    }

    /// One tick of drum channel `channel`, which is track `channel` of
    /// the song, from 8 on.
    pub open spec fn drum_step(self, song: Song, channel: int) -> Sequencer {
        let j = channel + (DRUM_VOICES - MELODIC_TRACKS);
        match note_at(song.tracks[channel].notes@, self.play_pos) {
            Some(note) => self.with_voice(j, Self::drum_voice(self.voices[j], note)),
            None => self,
        }
    }

    /// One tick of the first `n` melodic tracks, in order.
    pub open spec fn melodic_pass(self, song: Song, n: int) -> Sequencer
        decreases n,
    {
        if n <= 0 {
            self
        } else {
            self.melodic_pass(song, n - 1).melodic_step(song, n - 1)
        }
    }

    /// One tick of the first `n` drum channels, in order.
    pub open spec fn drum_pass(self, song: Song, n: int) -> Sequencer
        decreases n,
    {
        if n <= 0 {
            self
        } else {
            self.drum_pass(song, n - 1).drum_step(song, MELODIC_TRACKS + n - 1)
        }
    }

    /// One tick: the melodic tracks, then the drum channels.
    pub open spec fn tick(self, song: Song) -> Sequencer {
        self.melodic_pass(song, MELODIC_TRACKS as int).drum_pass(
            song,
            TRACKS - MELODIC_TRACKS,
        )
    }

    /// The state when a frame is about to be mixed: the first frame of a
    /// tick plays the tick's notes.
    pub open spec fn begin_frame(self, song: Song) -> Sequencer {
        if self.frames_this_tick == 0 {
            self.tick(song)
        } else {
            self
        }
    }

    /// The taps that the kernel is given for the next frame.
    pub open spec fn taps(self, song: Song) -> Seq<Tap> {
        frame_taps(self.begin_frame(song).voices)
    }

    /// The tick after `play_pos`: the end of the loop leads back to its
    /// start.
    pub open spec fn next_tick(self, song: Song) -> int {
        if self.play_pos + 1 == song.time.loop_range.end {
            song.time.loop_range.start as int
        } else {
            self.play_pos + 1
        }
    }

    /// The state after a frame was mixed: the clock counts the frame, and
    /// moves to the next tick when this one is full.
    pub open spec fn end_frame(self, song: Song) -> Sequencer {
        if self.frames_this_tick + 1 == self.frames_per_tick {
            Sequencer {
                frames_done: self.frames_done + 1,
                frames_this_tick: 0,
                play_pos: self.next_tick(song),
                ..self
            }
        } else {
            Sequencer {
                frames_done: self.frames_done + 1,
                frames_this_tick: self.frames_this_tick + 1,
                ..self
            }
        }
    }

    /// The state one output frame later.
    pub open spec fn frame(self, song: Song) -> Sequencer {
        let begun = self.begin_frame(song);
        Sequencer { voices: stepped_voices(begun.voices), ..begun }.end_frame(song)
    }

    /// The state `n` output frames later.
    pub open spec fn run(self, song: Song, n: nat) -> Sequencer
        decreases n,
    {
        if n == 0 {
            self
        } else {
            self.run(song, (n - 1) as nat).frame(song)
        }
    }

    /// Ticks from the start of the song to the end of the last repeat of
    /// the loop.
    pub open spec fn total_ticks(self, song: Song) -> int {
        let start = song.time.loop_range.start;
        let end = song.time.loop_range.end;
        start + (end - start) + (end - start) * self.loops
    }

    /// Frames that the song lasts: those of its ticks, and the seconds
    /// added after them.
    pub open spec fn total_frames(self, song: Song) -> int {
        self.frames_per_tick * self.total_ticks(song) + self.extra * SAMPLE_RATE
    }

    /// Frames still to be played.
    pub open spec fn frames_left(self, song: Song) -> int {
        if self.frames_done < self.total_frames(song) {
            self.total_frames(song) - self.frames_done
        } else {
            0
        }
    }

    /// Playback is inside a loop that is not empty, and so stays inside
    /// it: the tick before the end leads back to the start.
    pub open spec fn in_loop(self, song: Song) -> bool {
        song.time.loop_range.start < song.time.loop_range.end && self.play_pos
            < song.time.loop_range.end
    }

    /// Ticks that the clock completes in the frames still to be played.
    pub open spec fn ticks_left(self, song: Song) -> int {
        if self.frames_per_tick > 0 {
            (self.frames_this_tick + self.frames_left(song)) / self.frames_per_tick
        } else {
            0
        }
    }

    /// The counter of ticks, which is 32 bits wide, holds every tick
    /// still to come. It does while playback stays inside the loop. Past
    /// the end of the loop, or with an empty loop, the ticks are counted
    /// on and on: then the ticks left, counted from the later of the tick
    /// and the end of the loop, have to fit.
    pub open spec fn ticks_fit(self, song: Song) -> bool {
        ||| self.in_loop(song)
        ||| self.play_pos + self.ticks_left(song) <= i32::MAX && song.time.loop_range.end
            + self.ticks_left(song) <= i32::MAX
    }
}

/// What `first_match` finds: a note at tick `pos` that no note at that
/// tick comes before, or the end of the list if the tick has no note.
pub proof fn lemma_first_match(notes: Seq<Note>, pos: int, from: int)
    requires
        0 <= from <= notes.len(),
    ensures
        from <= first_match(notes, pos, from) <= notes.len(),
        first_match(notes, pos, from) < notes.len() ==> notes[first_match(notes, pos, from)].pos
            == pos,
        forall|k: int| from <= k < first_match(notes, pos, from) ==> notes[k].pos != pos,
    decreases notes.len() - from,
{
    if from < notes.len() && notes[from].pos != pos {
        lemma_first_match(notes, pos, from + 1);
    }
}

/// The note that a track plays at a tick is one of its notes, and lies
/// at that tick.
pub proof fn lemma_note_at(notes: Seq<Note>, pos: int)
    ensures
        match note_at(notes, pos) {
            Some(note) => note.pos == pos && notes.contains(note),
            None => forall|k: int| 0 <= k < notes.len() ==> notes[k].pos != pos,
        },
{
    lemma_first_match(notes, pos, 0);
}

/// The voice that a sounding track uses is a melodic voice of the octave
/// of its key, and belongs to the track.
pub proof fn lemma_active_voice(s: Sequencer, song: Song, track: int)
    requires
        s.wf(song),
        0 <= track < MELODIC_TRACKS,
        s.sounding(track),
    ensures
        0 <= s.active_voice(track) < DRUM_VOICES,
        octave_of_voice(s.active_voice(track)) == s.keys[track] / 12,
        s.active_voice(track) % 8 == track,
        0 <= s.keys[track] / 12 < 8,
{
    let octave = s.keys[track] / 12;
    assert(0 <= s.keys[track] < 96);
    assert(0 <= octave < 8);
    assert(s.swaps[track] == 0 || s.swaps[track] == SWAP);
}

/// Replacing a melodic voice by one that suits its octave keeps the
/// state well formed.
pub proof fn lemma_with_melodic_voice_wf(s: Sequencer, song: Song, j: int, v: Voice)
    requires
        s.wf(song),
        0 <= j < DRUM_VOICES,
        melodic_voice_ok(v, octave_of_voice(j)),
    ensures
        s.with_voice(j, v).wf(song),
{
    let t = s.with_voice(j, v);
    assert forall|i: int| 0 <= i < DRUM_VOICES implies melodic_voice_ok(
        #[trigger] t.voices[i],
        octave_of_voice(i),
    ) by {
        if i != j {
            assert(t.voices[i] == s.voices[i]);
        }
    }
    assert forall|i: int| DRUM_VOICES <= i < VOICES implies drum_voice_ok(
        #[trigger] t.voices[i],
    ) by {
        assert(t.voices[i] == s.voices[i]);
    }
}

/// Letting the voice of a sounding track go keeps the state well formed.
pub proof fn lemma_released_wf(s: Sequencer, song: Song, inst: Instrument, track: int)
    requires
        s.wf(song),
        0 <= track < MELODIC_TRACKS,
        s.sounding(track),
    ensures
        s.released(inst, track).wf(song),
{
    lemma_active_voice(s, song, track);
    let j = s.active_voice(track);
    lemma_with_melodic_voice_wf(s, song, j, Voice { looping: false, ..s.voices[j] });
}

/// The frequency of a key of a melodic instrument fits in 32 bits.
pub proof fn lemma_melodic_frequency_bounds(inst: Instrument, key: u8)
    requires
        key < 96,
    ensures
        0 <= melodic_frequency(inst, key) <= u32::MAX,
        i32::MIN <= key_frequency(key as int, signed_offset(inst.freq)) <= i32::MAX,
{
    crate::stuff::lemma_octave_scale_table(key as int / 12);
    let base = crate::stuff::FRQ_TBL[key as int % 12] as int;
    let scale = crate::stuff::octave_scale(key as int / 12);
    assert(0 <= base * scale <= 494 * 4096) by (nonlinear_arith)
        requires
            0 <= base <= 494,
            0 <= scale <= 4096,
    ;
}

/// A note with a key keeps the state well formed when it starts.
pub proof fn lemma_triggered_wf(s: Sequencer, song: Song, inst: Instrument, track: int, note: Note)
    requires
        s.wf(song),
        0 <= track < MELODIC_TRACKS,
        note.key < 96,
    ensures
        s.triggered(inst, track, note).wf(song),
{
    lemma_melodic_frequency_bounds(inst, note.key);
    let swapped = if s.sounding(track) {
        s.released(inst, track).swapped(track)
    } else {
        s
    };
    if s.sounding(track) {
        lemma_released_wf(s, song, inst, track);
    }
    assert(swapped.wf(song));
    let keyed = Sequencer { keys: swapped.keys.update(track, note.key as int), ..swapped };
    assert(keyed.wf(song));
    lemma_active_voice(keyed, song, track);
    let j = keyed.active_voice(track);
    let octave = note.key as int / 12;
    let started = Voice {
        playing: true,
        looping: true,
        frequency: melodic_frequency(inst, note.key),
        ..keyed.voices[j].select_octave(octave, inst.pipi != 0)
    };
    crate::wavetable::lemma_stride(octave);
    assert(melodic_voice_ok(keyed.voices[j], octave));
    assert(melodic_voice_ok(started, octave));
    lemma_with_melodic_voice_wf(keyed, song, j, started);
}

/// Volume and pan of a playable note keep a voice well formed.
pub proof fn lemma_shaped_voice(v: Voice, note: Note)
    requires
        v.wf(),
        note.pan_ok(),
    ensures
        Sequencer::shaped_voice(v, note).wf(),
{
}

/// Volume and pan of a playable note keep the state well formed.
pub proof fn lemma_shaped_wf(s: Sequencer, song: Song, track: int, note: Note)
    requires
        s.wf(song),
        0 <= track < MELODIC_TRACKS,
        note.pan_ok(),
    ensures
        s.shaped(track, note).wf(song),
{
    if s.sounding(track) {
        lemma_active_voice(s, song, track);
        let j = s.active_voice(track);
        lemma_shaped_voice(s.voices[j], note);
        lemma_with_melodic_voice_wf(s, song, j, Sequencer::shaped_voice(s.voices[j], note));
    }
}

/// One tick of a melodic track keeps the state well formed, and leaves
/// the clock alone.
pub proof fn lemma_melodic_step_wf(s: Sequencer, song: Song, track: int)
    requires
        s.wf(song),
        0 <= track < MELODIC_TRACKS,
    ensures
        s.melodic_step(song, track).wf(song),
        s.melodic_step(song, track).same_clock(s),
{
    let inst = song.tracks[track].inst;
    let notes = song.tracks[track].notes@;
    lemma_note_at(notes, s.play_pos);
    assert(song.tracks[track].notes_ok(track < MELODIC_TRACKS));
    let heard = match note_at(notes, s.play_pos) {
        Some(note) => s.melodic_event(inst, track, note),
        None => s,
    };
    match note_at(notes, s.play_pos) {
        Some(note) => {
            assert(note.melodic_ok());
            let begun = if note.key != NO_CHANGE {
                s.triggered(inst, track, note)
            } else {
                s
            };
            if note.key != NO_CHANGE {
                lemma_triggered_wf(s, song, inst, track, note);
            }
            lemma_shaped_wf(begun, song, track, note);
        },
        None => {},
    }
    assert(heard.wf(song));
    if heard.lengths[track] == 0 && heard.sounding(track) {
        lemma_released_wf(heard, song, inst, track);
    }
    assert(heard.expired(inst, track).wf(song));
}

/// One tick of a drum channel keeps the state well formed, and leaves the
/// clock and the melodic tracks alone.
pub proof fn lemma_drum_step_wf(s: Sequencer, song: Song, channel: int)
    requires
        s.wf(song),
        MELODIC_TRACKS <= channel < TRACKS,
    ensures
        s.drum_step(song, channel).wf(song),
        s.drum_step(song, channel).same_clock(s),
{
    let notes = song.tracks[channel].notes@;
    let j = channel + (DRUM_VOICES - MELODIC_TRACKS);
    lemma_note_at(notes, s.play_pos);
    assert(song.tracks[channel].notes_ok(channel < MELODIC_TRACKS));
    match note_at(notes, s.play_pos) {
        Some(note) => {
            assert(note.pan_ok());
            let v = s.voices[j];
            assert(drum_voice_ok(v));
            let after = Sequencer::drum_voice(v, note);
            assert(drum_voice_ok(after));
            let t = s.with_voice(j, after);
            assert forall|i: int| 0 <= i < DRUM_VOICES implies melodic_voice_ok(
                #[trigger] t.voices[i],
                octave_of_voice(i),
            ) by {
                assert(t.voices[i] == s.voices[i]);
            }
            assert forall|i: int| DRUM_VOICES <= i < VOICES implies drum_voice_ok(
                #[trigger] t.voices[i],
            ) by {
                if i != j {
                    assert(t.voices[i] == s.voices[i]);
                }
            }
        },
        None => {},
    }
}

/// One tick of the first `n` melodic tracks keeps the state well formed.
pub proof fn lemma_melodic_pass_wf(s: Sequencer, song: Song, n: int)
    requires
        s.wf(song),
        0 <= n <= MELODIC_TRACKS,
    ensures
        s.melodic_pass(song, n).wf(song),
        s.melodic_pass(song, n).same_clock(s),
    decreases n,
{
    if n > 0 {
        lemma_melodic_pass_wf(s, song, n - 1);
        lemma_melodic_step_wf(s.melodic_pass(song, n - 1), song, n - 1);
    }
}

/// One tick of the first `n` drum channels keeps the state well formed.
pub proof fn lemma_drum_pass_wf(s: Sequencer, song: Song, n: int)
    requires
        s.wf(song),
        0 <= n <= TRACKS - MELODIC_TRACKS,
    ensures
        s.drum_pass(song, n).wf(song),
        s.drum_pass(song, n).same_clock(s),
    decreases n,
{
    if n > 0 {
        lemma_drum_pass_wf(s, song, n - 1);
        lemma_drum_step_wf(s.drum_pass(song, n - 1), song, MELODIC_TRACKS + n - 1);
    }
}

/// A tick keeps the state well formed and leaves the clock alone.
pub proof fn lemma_tick_wf(s: Sequencer, song: Song)
    requires
        s.wf(song),
    ensures
        s.tick(song).wf(song),
        s.tick(song).same_clock(s),
{
    lemma_melodic_pass_wf(s, song, MELODIC_TRACKS as int);
    lemma_drum_pass_wf(
        s.melodic_pass(song, MELODIC_TRACKS as int),
        song,
        TRACKS - MELODIC_TRACKS,
    );
}

/// One frame of mixing keeps every voice as the state needs it.
pub proof fn lemma_stepped_voices_wf(s: Sequencer, song: Song)
    requires
        s.wf(song),
    ensures
        (Sequencer { voices: stepped_voices(s.voices), ..s }).wf(song),
{
    let t = Sequencer { voices: stepped_voices(s.voices), ..s };
    assert forall|i: int| 0 <= i < DRUM_VOICES implies melodic_voice_ok(
        #[trigger] t.voices[i],
        octave_of_voice(i),
    ) by {
        crate::voice::lemma_advanced_wf(s.voices[i]);
        assert(melodic_voice_ok(s.voices[i], octave_of_voice(i)));
    }
    assert forall|i: int| DRUM_VOICES <= i < VOICES implies drum_voice_ok(
        #[trigger] t.voices[i],
    ) by {
        crate::voice::lemma_advanced_wf(s.voices[i]);
        assert(drum_voice_ok(s.voices[i]));
    }
}

/// A frame that completes a tick leaves one tick less to complete; any
/// other frame leaves as many.
pub proof fn lemma_ticks_left_step(per_tick: int, in_tick: int, left: int)
    requires
        0 < per_tick,
        0 <= in_tick < per_tick,
        1 <= left,
    ensures
        in_tick + 1 == per_tick ==> (in_tick + left) / per_tick == 1 + (left - 1) / per_tick,
        0 <= (in_tick + left) / per_tick,
        0 <= (left - 1) / per_tick,
{
    if in_tick + 1 == per_tick {
        vstd::arithmetic::div_mod::lemma_div_plus_one(left - 1, per_tick);
        assert(in_tick + left == per_tick + (left - 1));
    }
    vstd::arithmetic::div_mod::lemma_div_pos_is_pos(in_tick + left, per_tick);
    vstd::arithmetic::div_mod::lemma_div_pos_is_pos(left - 1, per_tick);
}

/// An output frame of a song that is not over keeps the state well
/// formed and the ticks to come inside their counter, and counts one
/// frame.
pub proof fn lemma_frame_wf(s: Sequencer, song: Song)
    requires
        s.wf(song),
        s.ticks_fit(song),
        s.frames_done < s.total_frames(song),
    ensures
        s.frame(song).wf(song),
        s.frame(song).ticks_fit(song),
        s.in_loop(song) ==> s.frame(song).in_loop(song),
        s.frame(song).frames_done == s.frames_done + 1,
        s.frame(song).loops == s.loops,
        s.frame(song).extra == s.extra,
        s.frame(song).frames_per_tick == s.frames_per_tick,
{
    if s.frames_this_tick == 0 {
        lemma_tick_wf(s, song);
    }
    let begun = s.begin_frame(song);
    lemma_stepped_voices_wf(begun, song);
    let r = s.frame(song);
    assert(r.total_frames(song) == s.total_frames(song));
    if s.frames_per_tick > 0 {
        lemma_ticks_left_step(s.frames_per_tick, s.frames_this_tick, s.frames_left(song));
        if s.frames_this_tick + 1 != s.frames_per_tick {
            assert(r.frames_this_tick + r.frames_left(song) == s.frames_this_tick
                + s.frames_left(song));
        }
    }
}

/// Any number of output frames that the song still has keeps the state
/// well formed and the ticks to come inside their counter, and counts
/// the frames.
pub proof fn lemma_run_wf(s: Sequencer, song: Song, n: nat)
    requires
        s.wf(song),
        s.ticks_fit(song),
        n <= s.frames_left(song),
    ensures
        s.run(song, n).wf(song),
        s.run(song, n).ticks_fit(song),
        s.in_loop(song) ==> s.run(song, n).in_loop(song),
        s.run(song, n).frames_done == s.frames_done + n,
        s.run(song, n).loops == s.loops,
        s.run(song, n).extra == s.extra,
        s.run(song, n).frames_per_tick == s.frames_per_tick,
        s.run(song, n).total_frames(song) == s.total_frames(song),
    decreases n,
{
    if n > 0 {
        lemma_run_wf(s, song, (n - 1) as nat);
        lemma_frame_wf(s.run(song, (n - 1) as nat), song);
    }
}

/// Playing in pieces is playing in one go: `a` frames and then `b`
/// frames leave the state that `a + b` frames leave.
pub proof fn lemma_run_in_pieces(s: Sequencer, song: Song, a: nat, b: nat)
    ensures
        s.run(song, a).run(song, b) == s.run(song, a + b),
    decreases b,
{
    if b > 0 {
        lemma_run_in_pieces(s, song, a, (b - 1) as nat);
    }
}

/// A song that plays its loop once and adds nothing after it lasts as
/// many ticks as lie before the end of the loop: those before the loop,
/// and those of the loop.
pub proof fn lemma_single_pass_length(s: Sequencer, song: Song)
    requires
        s.loops == 0,
        s.extra == 0,
    ensures
        s.total_frames(song) == s.frames_per_tick * (song.time.loop_range.start + (
        song.time.loop_range.end - song.time.loop_range.start)),
        s.total_frames(song) == s.frames_per_tick * song.time.loop_range.end,
{
    let start = song.time.loop_range.start as int;
    let end = song.time.loop_range.end as int;
    assert(start + (end - start) + (end - start) * 0 == end) by (nonlinear_arith);
    assert(0 * (SAMPLE_RATE as int) == 0);
}

/// Every repeat of the loop adds the frames of the loop's ticks, and
/// every second added adds the frames of a second.
pub proof fn lemma_total_frames_grows(s: Sequencer, song: Song)
    ensures
        (Sequencer { loops: s.loops + 1, ..s }).total_frames(song) == s.total_frames(song)
            + s.frames_per_tick * (song.time.loop_range.end - song.time.loop_range.start),
        (Sequencer { extra: s.extra + 1, ..s }).total_frames(song) == s.total_frames(song)
            + SAMPLE_RATE,
{
    let start = song.time.loop_range.start as int;
    let end = song.time.loop_range.end as int;
    let per_tick = s.frames_per_tick;
    let loops = s.loops;
    assert(per_tick * (start + (end - start) + (end - start) * (loops + 1)) == per_tick * (start
        + (end - start) + (end - start) * loops) + per_tick * (end - start))
        by (nonlinear_arith);
}

/// A note on a voice at rest of an instrument with an envelope gives the
/// voice `(octave + 1) * 4` passes, after which it stops by itself; any
/// other note leaves its voice without a limit of passes.
pub proof fn lemma_envelope_note_counts_passes(
    s: Sequencer,
    song: Song,
    inst: Instrument,
    track: int,
    note: Note,
)
    requires
        s.wf(song),
        0 <= track < MELODIC_TRACKS,
        note.key < 96,
    ensures
        ({
            let t = s.triggered(inst, track, note);
            let j = t.active_voice(track);
            &&& 0 <= j < DRUM_VOICES
            &&& j == (note.key / 12) * 8 + track + t.swaps[track]
            &&& t.voices[j].nloops == if inst.pipi != 0 && !s.voices[j].playing {
                (note.key / 12 + 1) * 4
            } else {
                -1
            }
        }),
{
    lemma_triggered_wf(s, song, inst, track, note);
    let t = s.triggered(inst, track, note);
    lemma_active_voice(t, song, track);
    if s.sounding(track) {
        lemma_active_voice(s, song, track);
        assert(s.swaps[track] == 0 || s.swaps[track] == SWAP);
    }
}

/// A note that starts on a track that sounds starts on another voice
/// than the one that sounded. The voice that sounded is let go as it
/// is: without envelope it stops looping, and nothing else of it
/// changes, neither its frequency nor its cursor, so that it plays its
/// region out while the new voice starts. A note of the same octave
/// starts on the other copy of that voice.
pub proof fn lemma_retrigger_changes_voice(
    s: Sequencer,
    song: Song,
    inst: Instrument,
    track: int,
    note: Note,
)
    requires
        s.wf(song),
        0 <= track < MELODIC_TRACKS,
        s.sounding(track),
        note.key < 96,
    ensures
        ({
            let before = s.active_voice(track);
            let t = s.triggered(inst, track, note);
            let after = t.active_voice(track);
            &&& 0 <= before < DRUM_VOICES
            &&& 0 <= after < DRUM_VOICES
            &&& after != before
            &&& t.swaps[track] != s.swaps[track]
            &&& note.key / 12 == s.keys[track] / 12 ==> (after == before + SWAP || after + SWAP
                == before)
            &&& t.voices[after].playing
            &&& t.voices[after].looping
            &&& t.voices[after].frequency == melodic_frequency(inst, note.key)
            &&& t.voices[before] == (Voice {
                looping: if inst.pipi == 0 {
                    false
                } else {
                    s.voices[before].looping
                },
                ..s.voices[before]
            })
            &&& forall|i: int|
                0 <= i < VOICES && i != before && i != after ==> t.voices[i] == s.voices[i]
        }),
{
    lemma_active_voice(s, song, track);
    lemma_triggered_wf(s, song, inst, track, note);
    let t = s.triggered(inst, track, note);
    lemma_active_voice(t, song, track);
    assert(s.swaps[track] == 0 || s.swaps[track] == SWAP);
}

/// Two notes of one key at ticks that follow each other sound on the two
/// copies of one voice: when the second begins, the track still sounds
/// the first, whose length was not zero, and the second starts on the
/// copy that the first did not use.
pub proof fn lemma_repeated_key_alternates(
    s: Sequencer,
    song: Song,
    inst: Instrument,
    track: int,
    first: Note,
    second: Note,
)
    requires
        s.wf(song),
        0 <= track < MELODIC_TRACKS,
        first.key < 96,
        second.key == first.key,
        first.len >= 1,
    ensures
        ({
            let one = s.triggered(inst, track, first).expired(inst, track).aged(track);
            let two = one.triggered(inst, track, second);
            &&& one.sounding(track)
            &&& two.active_voice(track) == one.active_voice(track) + SWAP || two.active_voice(
                track,
            ) + SWAP == one.active_voice(track)
        }),
{
    lemma_triggered_wf(s, song, inst, track, first);
    let begun = s.triggered(inst, track, first);
    assert(begun.lengths[track] == first.len);
    assert(begun.keys[track] == first.key);
    let one = begun.expired(inst, track).aged(track);
    assert(one == begun.aged(track));
    assert(one.wf(song));
    lemma_retrigger_changes_voice(one, song, inst, track, second);
}

/// A tick of one melodic track leaves every other melodic track as it
/// was, with its voices.
pub proof fn lemma_melodic_step_keeps_other_tracks(s: Sequencer, song: Song, u: int, t: int)
    requires
        s.wf(song),
        0 <= u < MELODIC_TRACKS,
        0 <= t < MELODIC_TRACKS,
        u != t,
    ensures
        s.melodic_step(song, u).same_track(s, t),
{
    let inst = song.tracks[u].inst;
    let notes = song.tracks[u].notes@;
    lemma_note_at(notes, s.play_pos);
    assert(song.tracks[u].notes_ok(u < MELODIC_TRACKS));
    let heard = match note_at(notes, s.play_pos) {
        Some(note) => s.melodic_event(inst, u, note),
        None => s,
    };
    match note_at(notes, s.play_pos) {
        Some(note) => {
            assert(note.melodic_ok());
            let begun = if note.key != NO_CHANGE {
                s.triggered(inst, u, note)
            } else {
                s
            };
            if note.key != NO_CHANGE {
                lemma_triggered_wf(s, song, inst, u, note);
                if s.sounding(u) {
                    lemma_active_voice(s, song, u);
                    lemma_released_wf(s, song, inst, u);
                }
                let swapped = if s.sounding(u) {
                    s.released(inst, u).swapped(u)
                } else {
                    s
                };
                assert(swapped.wf(song));
                assert(swapped.same_track(s, t));
                let keyed = Sequencer {
                    keys: swapped.keys.update(u, note.key as int),
                    ..swapped
                };
                assert(keyed.wf(song));
                lemma_active_voice(keyed, song, u);
                assert(begun.same_track(s, t));
            }
            if begun.sounding(u) {
                lemma_active_voice(begun, song, u);
            }
            lemma_shaped_wf(begun, song, u, note);
            assert(heard.same_track(s, t));
        },
        None => {},
    }
    assert(heard.wf(song)) by {
        lemma_melodic_step_wf(s, song, u);
        match note_at(notes, s.play_pos) {
            Some(note) => {
                let begun = if note.key != NO_CHANGE {
                    s.triggered(inst, u, note)
                } else {
                    s
                };
                if note.key != NO_CHANGE {
                    lemma_triggered_wf(s, song, inst, u, note);
                }
                lemma_shaped_wf(begun, song, u, note);
            },
            None => {},
        }
    }
    if heard.sounding(u) {
        lemma_active_voice(heard, song, u);
    }
    assert(heard.expired(inst, u).same_track(s, t));
}

/// A tick of a drum channel leaves every melodic track as it was, with
/// its voices.
pub proof fn lemma_drum_step_keeps_melodic_tracks(s: Sequencer, song: Song, channel: int, t: int)
    requires
        s.wf(song),
        MELODIC_TRACKS <= channel < TRACKS,
        0 <= t < MELODIC_TRACKS,
    ensures
        s.drum_step(song, channel).same_track(s, t),
{
}

/// What a tick of a melodic track does to the track and its voices
/// rests on nothing but the track, its voices and the tick.
pub proof fn lemma_melodic_step_of_same_track(p: Sequencer, s: Sequencer, song: Song, t: int)
    requires
        p.wf(song),
        s.wf(song),
        0 <= t < MELODIC_TRACKS,
        p.same_track(s, t),
        p.play_pos == s.play_pos,
    ensures
        p.melodic_step(song, t).same_track(s.melodic_step(song, t), t),
{
    let inst = song.tracks[t].inst;
    let notes = song.tracks[t].notes@;
    lemma_note_at(notes, s.play_pos);
    assert(song.tracks[t].notes_ok(t < MELODIC_TRACKS));
    let heard_p = match note_at(notes, p.play_pos) {
        Some(note) => p.melodic_event(inst, t, note),
        None => p,
    };
    let heard_s = match note_at(notes, s.play_pos) {
        Some(note) => s.melodic_event(inst, t, note),
        None => s,
    };
    match note_at(notes, s.play_pos) {
        Some(note) => {
            assert(note.melodic_ok());
            let begun_p = if note.key != NO_CHANGE {
                p.triggered(inst, t, note)
            } else {
                p
            };
            let begun_s = if note.key != NO_CHANGE {
                s.triggered(inst, t, note)
            } else {
                s
            };
            if note.key != NO_CHANGE {
                lemma_triggered_wf(p, song, inst, t, note);
                lemma_triggered_wf(s, song, inst, t, note);
                if s.sounding(t) {
                    lemma_active_voice(s, song, t);
                    lemma_active_voice(p, song, t);
                    lemma_released_wf(s, song, inst, t);
                    lemma_released_wf(p, song, inst, t);
                    assert(p.released(inst, t).same_track(s.released(inst, t), t));
                }
                let swapped_p = if p.sounding(t) {
                    p.released(inst, t).swapped(t)
                } else {
                    p
                };
                let swapped_s = if s.sounding(t) {
                    s.released(inst, t).swapped(t)
                } else {
                    s
                };
                assert(swapped_p.same_track(swapped_s, t));
                let keyed_p = Sequencer {
                    keys: swapped_p.keys.update(t, note.key as int),
                    ..swapped_p
                };
                let keyed_s = Sequencer {
                    keys: swapped_s.keys.update(t, note.key as int),
                    ..swapped_s
                };
                assert(keyed_p.wf(song) && keyed_s.wf(song));
                lemma_active_voice(keyed_p, song, t);
                lemma_active_voice(keyed_s, song, t);
                assert(keyed_p.same_track(keyed_s, t));
                assert(begun_p.same_track(begun_s, t));
            }
            lemma_shaped_wf(begun_p, song, t, note);
            lemma_shaped_wf(begun_s, song, t, note);
            if begun_s.sounding(t) {
                lemma_active_voice(begun_p, song, t);
                lemma_active_voice(begun_s, song, t);
            }
            assert(heard_p.same_track(heard_s, t));
        },
        None => {},
    }
    assert(heard_p.wf(song) && heard_s.wf(song)) by {
        match note_at(notes, s.play_pos) {
            Some(note) => {
                if note.key != NO_CHANGE {
                    lemma_triggered_wf(p, song, inst, t, note);
                    lemma_triggered_wf(s, song, inst, t, note);
                }
                lemma_shaped_wf(
                    if note.key != NO_CHANGE {
                        p.triggered(inst, t, note)
                    } else {
                        p
                    },
                    song,
                    t,
                    note,
                );
                lemma_shaped_wf(
                    if note.key != NO_CHANGE {
                        s.triggered(inst, t, note)
                    } else {
                        s
                    },
                    song,
                    t,
                    note,
                );
            },
            None => {},
        }
    }
    if heard_s.sounding(t) {
        lemma_active_voice(heard_p, song, t);
        lemma_active_voice(heard_s, song, t);
    }
    assert(heard_p.expired(inst, t).same_track(heard_s.expired(inst, t), t));
}

/// After a tick of the first `n` melodic tracks, track `t` is as it was
/// if its turn has not come, and else as its own tick alone leaves it.
pub proof fn lemma_melodic_pass_of_track(s: Sequencer, song: Song, n: int, t: int)
    requires
        s.wf(song),
        0 <= n <= MELODIC_TRACKS,
        0 <= t < MELODIC_TRACKS,
    ensures
        n <= t ==> s.melodic_pass(song, n).same_track(s, t),
        n > t ==> s.melodic_pass(song, n).same_track(s.melodic_step(song, t), t),
    decreases n,
{
    if n > 0 {
        let before = s.melodic_pass(song, n - 1);
        lemma_melodic_pass_of_track(s, song, n - 1, t);
        lemma_melodic_pass_wf(s, song, n - 1);
        if n - 1 == t {
            lemma_melodic_step_of_same_track(before, s, song, t);
        } else {
            lemma_melodic_step_keeps_other_tracks(before, song, n - 1, t);
        }
    }
}

/// After a tick of the first `n` drum channels every melodic track is as
/// it was.
pub proof fn lemma_drum_pass_keeps_melodic_tracks(s: Sequencer, song: Song, n: int, t: int)
    requires
        s.wf(song),
        0 <= n <= TRACKS - MELODIC_TRACKS,
        0 <= t < MELODIC_TRACKS,
    ensures
        s.drum_pass(song, n).same_track(s, t),
    decreases n,
{
    if n > 0 {
        lemma_drum_pass_keeps_melodic_tracks(s, song, n - 1, t);
        lemma_drum_pass_wf(s, song, n - 1);
        lemma_drum_step_keeps_melodic_tracks(
            s.drum_pass(song, n - 1),
            song,
            MELODIC_TRACKS + n - 1,
            t,
        );
    }
}

/// The tracks do not reach into each other: a whole tick leaves a
/// melodic track and its voices as the tick of that track alone leaves
/// them.
pub proof fn lemma_tick_of_track(s: Sequencer, song: Song, t: int)
    requires
        s.wf(song),
        0 <= t < MELODIC_TRACKS,
    ensures
        s.tick(song).same_track(s.melodic_step(song, t), t),
{
    lemma_melodic_pass_of_track(s, song, MELODIC_TRACKS as int, t);
    lemma_melodic_pass_wf(s, song, MELODIC_TRACKS as int);
    lemma_drum_pass_keeps_melodic_tracks(
        s.melodic_pass(song, MELODIC_TRACKS as int),
        song,
        TRACKS - MELODIC_TRACKS,
        t,
    );
}

/// A tick at which a sounding track has a note with a key moves the
/// track to the other copy of its voices: the note starts on another
/// voice than the one that sounded, on its twin if the octave is the
/// same, and the voice that sounded is as it was but that, without
/// envelope, it has stopped looping.
pub proof fn lemma_tick_retrigger(s: Sequencer, song: Song, t: int, note: Note)
    requires
        s.wf(song),
        0 <= t < MELODIC_TRACKS,
        s.sounding(t),
        note_at(song.tracks[t].notes@, s.play_pos) == Some(note),
        note.key != NO_CHANGE,
    ensures
        ({
            let r = s.tick(song);
            let before = s.active_voice(t);
            let after = (note.key / 12) * 8 + t + r.swaps[t];
            &&& note.key < 96
            &&& 0 <= before < DRUM_VOICES
            &&& 0 <= after < DRUM_VOICES
            &&& r.swaps[t] != s.swaps[t]
            &&& after != before
            &&& note.key / 12 == s.keys[t] / 12 ==> (after == before + SWAP || after + SWAP
                == before)
            &&& r.voices[after].playing
            &&& r.voices[after].frequency == melodic_frequency(song.tracks[t].inst, note.key)
            &&& r.voices[before] == (Voice {
                looping: if song.tracks[t].inst.pipi == 0 {
                    false
                } else {
                    s.voices[before].looping
                },
                ..s.voices[before]
            })
        }),
{
    let inst = song.tracks[t].inst;
    lemma_note_at(song.tracks[t].notes@, s.play_pos);
    assert(song.tracks[t].notes_ok(t < MELODIC_TRACKS));
    assert(note.melodic_ok());
    lemma_tick_of_track(s, song, t);
    lemma_retrigger_changes_voice(s, song, inst, t, note);
    lemma_triggered_wf(s, song, inst, t, note);
    let begun = s.triggered(inst, t, note);
    lemma_active_voice(s, song, t);
    lemma_active_voice(begun, song, t);
    lemma_shaped_wf(begun, song, t, note);
    let heard = begun.shaped(t, note);
    lemma_active_voice(heard, song, t);
    let one = s.melodic_step(song, t);
    assert(one == heard.expired(inst, t).aged(t));
    let before = s.active_voice(t);
    let after = (note.key / 12) * 8 + t + one.swaps[t];
    assert(after == begun.active_voice(t));
    assert(one.voices[before] == begun.voices[before]);
    assert(one.voices[after].playing);
    assert(before % 8 == t && after % 8 == t);
}

/// A tick at which a track has a note with a key gives the note's voice
/// its passes: `(octave + 1) * 4` of them on a voice at rest of an
/// instrument with an envelope, so that the voice stops by itself after
/// them, and no limit on any other voice.
pub proof fn lemma_tick_envelope_note(s: Sequencer, song: Song, t: int, note: Note)
    requires
        s.wf(song),
        0 <= t < MELODIC_TRACKS,
        note_at(song.tracks[t].notes@, s.play_pos) == Some(note),
        note.key != NO_CHANGE,
    ensures
        ({
            let r = s.tick(song);
            let j = (note.key / 12) * 8 + t + r.swaps[t];
            &&& note.key < 96
            &&& 0 <= j < DRUM_VOICES
            &&& r.swaps[t] == if s.sounding(t) {
                SWAP - s.swaps[t]
            } else {
                s.swaps[t]
            }
            &&& r.voices[j].playing
            &&& r.voices[j].nloops == if song.tracks[t].inst.pipi != 0 && !s.voices[j].playing {
                (note.key / 12 + 1) * 4
            } else {
                -1
            }
        }),
{
    let inst = song.tracks[t].inst;
    lemma_note_at(song.tracks[t].notes@, s.play_pos);
    assert(song.tracks[t].notes_ok(t < MELODIC_TRACKS));
    assert(note.melodic_ok());
    lemma_tick_of_track(s, song, t);
    lemma_envelope_note_counts_passes(s, song, inst, t, note);
    lemma_triggered_wf(s, song, inst, t, note);
    let begun = s.triggered(inst, t, note);
    lemma_active_voice(begun, song, t);
    lemma_shaped_wf(begun, song, t, note);
    let heard = begun.shaped(t, note);
    lemma_active_voice(heard, song, t);
    let one = s.melodic_step(song, t);
    assert(one == heard.expired(inst, t).aged(t));
    let j = begun.active_voice(t);
    assert(j % 8 == t);
    assert(s.swaps[t] == 0 || s.swaps[t] == SWAP);
}

} // verus!
