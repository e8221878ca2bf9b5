//! Voices over waveforms, the mixer that sums them into output frames,
//! and the engine that plays a song on them.

use vstd::prelude::*;
use vstd::arithmetic::div_mod::lemma_mod_add_multiples_vanish;
use crate::frame::{accumulate, mixed};
use crate::voice::{
    frame_taps, lemma_advanced_wf, stepped_voices, Tap, Voice, CENTIBEL_MAX, CENTIBEL_MIN, LENS,
    OFFS, SAMPLE_RATE, TABLE_LEN, WAVE_LEN,
};
use crate::bnk::SoundBank;
use crate::org::{Song, MELODIC_TRACKS, TRACKS};
use crate::org::Note;
use crate::sequencer::{
    drum_voice_ok, find_note, frames_per_tick_of, frequency_word, lemma_active_voice,
    lemma_drum_step_wf, lemma_frame_wf, lemma_note_at, lemma_released_wf, lemma_run_wf,
    lemma_shaped_wf, lemma_stepped_voices_wf, lemma_tick_wf, lemma_triggered_wf,
    melodic_frequency, melodic_voice_ok, octave_of_voice, offset_of, Sequencer,
    DRUM_VOICES, SWAP, VOICES,
};
use crate::stuff::{
    org_key_to_drum_freq, org_key_to_freq, org_pan_to_pan, org_vol_to_vol, KEY_LIMIT, NO_CHANGE,
};
use crate::wav::{WavFormat, WavSample};
use crate::wavetable::{
    flip_sign, flipped, lemma_region_source, lemma_stride, source_index, stride, wavetable,
};

verus! {

/// One voice: a cursor over a region of a waveform.
#[derive(Debug)]
pub struct RenderBuffer {
    /// Whole part of the cursor: a sample index relative to `base_pos`.
    pub position: usize,
    /// Fractional part of the cursor, in steps of `1 / SAMPLE_RATE`.
    pub fraction: u32,
    pub frequency: u32,
    pub volume: i32,
    pub pan: i32,
    pub sample: WavSample,
    pub playing: bool,
    pub looping: bool,
    pub base_pos: usize,
    pub len: usize,
    /// Passes left: -1 for no limit.
    pub nloops: i32,
}

impl View for RenderBuffer {
    type V = Voice;

    open spec fn view(&self) -> Voice {
        Voice {
            position: self.position as int,
            fraction: self.fraction as int,
            frequency: self.frequency as int,
            volume: self.volume as int,
            pan: self.pan as int,
            format: self.sample.format,
            data: self.sample.data@,
            playing: self.playing,
            looping: self.looping,
            base_pos: self.base_pos as int,
            len: self.len as int,
            nloops: self.nloops as int,
        }
    }
}

impl Clone for RenderBuffer {
    fn clone(&self) -> (r: Self)
        ensures
            r@ == self@,
    {
        RenderBuffer {
            position: self.position,
            fraction: self.fraction,
            frequency: self.frequency,
            volume: self.volume,
            pan: self.pan,
            sample: self.sample.clone(),
            playing: self.playing,
            looping: self.looping,
            base_pos: self.base_pos,
            len: self.len,
            nloops: self.nloops,
        }
    }
}

impl RenderBuffer {
    /// See `Voice::wf`.
    pub open spec fn wf(&self) -> bool {
        self@.wf()
    }

    /// A voice at rest over the whole of a sample, tuned to the sample's
    /// own rate.
    pub fn new(sample: WavSample) -> (r: RenderBuffer)
        ensures
            r@ == Voice::fresh(sample.format, sample.data@),
            sample.data@.len() > 0 ==> r.wf(),
    {
        RenderBuffer {
            position: 0,
            fraction: 0,
            frequency: sample.format.sample_rate,
            volume: 0,
            pan: 0,
            len: sample.data.len(),
            sample,
            playing: false,
            looping: false,
            base_pos: 0,
            nloops: -1,
        }
    }

    /// A voice at rest over the expanded wavetable of a melodic
    /// instrument. The table is made from the first 256 samples of
    /// `sample`: one region for each octave, read from those samples at
    /// the octave's stride.
    pub fn new_organya(sample: WavSample) -> (r: RenderBuffer)
        requires
            sample.data@.len() >= WAVE_LEN,
        ensures
            r@ == Voice::fresh(sample.format, wavetable(sample.data@)),
            r.wf(),
    {
        let ghost source = sample.data@;
        let ghost format = sample.format;
        let mut sample = sample;
        let wave = sample.data.clone();
        assert(wave@ =~= source);
        sample.data.clear();
        let mut octave: usize = 0;
        while octave < 8
            invariant
                octave <= 8,
                wave@ == source,
                source.len() >= WAVE_LEN,
                sample.format == format,
                octave < 8 ==> sample.data@.len() == OFFS[octave as int],
                octave == 8 ==> sample.data@.len() == TABLE_LEN,
                forall|k: int|
                    0 <= k < sample.data@.len() ==> sample.data@[k] == source[source_index(k)],
            decreases 8 - octave,
        {
            let size = LENS[octave];
            let step = WAVE_LEN / size;
            let mut acc: usize = 0;
            let mut i: usize = 0;
            proof {
                lemma_stride(octave as int);
            }
            while i < size
                invariant
                    octave < 8,
                    size == LENS[octave as int],
                    step == stride(octave as int),
                    i <= size,
                    wave@ == source,
                    source.len() >= WAVE_LEN,
                    sample.format == format,
                    sample.data@.len() == OFFS[octave as int] + i,
                    i < size ==> acc == i * step,
                    forall|k: int|
                        0 <= k < sample.data@.len() ==> sample.data@[k] == source[source_index(
                            k,
                        )],
                decreases size - i,
            {
                proof {
                    lemma_stride(octave as int);
                    lemma_region_source(octave as int, i as int);
                    if i + 1 < size {
                        lemma_region_source(octave as int, i + 1);
                    }
                    assert((i + 1) * step == i * step + step) by (nonlinear_arith);
                }
                sample.data.push(wave[acc]);
                acc += step;
                if acc >= WAVE_LEN {
                    acc = 0;
                }
                i += 1;
            }
            octave += 1;
        }
        assert(sample.data@ =~= wavetable(source));
        RenderBuffer::new(sample)
    }

    /// Selects the region of `octave` in an expanded wavetable. With
    /// `pipi` set, a voice at rest is given `(octave + 1) * 4` passes;
    /// any other voice has no limit of passes.
    pub fn organya_select_octave(&mut self, octave: usize, pipi: bool)
        requires
            octave < 8,
        ensures
            final(self)@ == old(self)@.select_octave(octave as int, pipi),
            old(self).wf() && old(self)@.fits_octave(octave as int) ==> final(self).wf(),
    {
        self.base_pos = OFFS[octave];
        self.len = LENS[octave];
        if pipi && !self.playing {
            self.nloops = ((octave + 1) * 4) as i32;
        } else {
            self.nloops = -1;
        }
    }

    /// Sets the frequency in Hz: the samples that the cursor moves in a
    /// second.
    pub fn set_frequency(&mut self, frequency: u32)
        ensures
            final(self)@ == (Voice { frequency: frequency as int, ..old(self)@ }),
            old(self).wf() ==> final(self).wf(),
    {
        self.frequency = frequency;
    }

    /// Sets the volume in centibel.
    pub fn set_volume(&mut self, volume: i32)
        requires
            CENTIBEL_MIN <= volume <= 0,
        ensures
            final(self)@ == (Voice { volume: volume as int, ..old(self)@ }),
            old(self).wf() ==> final(self).wf(),
    {
        self.volume = volume;
    }

    /// Sets the pan in centibel: below zero is left of the centre.
    pub fn set_pan(&mut self, pan: i32)
        requires
            CENTIBEL_MIN <= pan <= CENTIBEL_MAX,
        ensures
            final(self)@ == (Voice { pan: pan as int, ..old(self)@ }),
            old(self).wf() ==> final(self).wf(),
    {
        self.pan = pan;
    }

    /// Moves the cursor to the start of sample `position`.
    pub fn set_position(&mut self, position: u32)
        requires
            old(self).sample.format.bit_depth > 0,
            position < (old(self).sample.data@.len() as int) / (
            old(self).sample.format.bit_depth as int),
        ensures
            final(self)@ == (Voice { position: position as int, fraction: 0, ..old(self)@ }),
            old(self).wf() && position < old(self).len ==> final(self).wf(),
    {
        self.position = position as usize;
        self.fraction = 0;
    }

    /// The sample `ahead` places after the cursor, or the last sample of
    /// the selected region where that lies beyond it.
    fn sample_ahead(&self, ahead: usize) -> (r: u8)
        requires
            self.wf(),
            ahead <= 3,
        ensures
            r == self@.data[self@.neighbour(ahead as int)],
    {
        let size = self.sample.data.len();
        assert(self.base_pos + self.len <= size);
        let room = self.len - 1 - self.position;
        if ahead > room {
            self.sample.data[self.base_pos + self.len - 1]
        } else {
            self.sample.data[self.base_pos + self.position + ahead]
        }
    }

    /// The sample `behind` places before the cursor, or the first sample
    /// of the selected region where that lies before it.
    fn sample_behind(&self, behind: usize) -> (r: u8)
        requires
            self.wf(),
            behind <= 2,
        ensures
            r == self@.data[self@.neighbour(-(behind as int))],
    {
        let size = self.sample.data.len();
        assert(self.base_pos + self.len <= size);
        if behind > self.position {
            self.sample.data[self.base_pos]
        } else {
            self.sample.data[self.base_pos + self.position - behind]
        }
    }

    /// The six samples round the cursor, with the cursor's fraction and
    /// the voice's volume and pan.
    pub fn tap(&self) -> (r: Tap)
        requires
            self.wf(),
        ensures
            r == self@.tap(),
    {
        let r = Tap {
            window: [
                self.sample_behind(2),
                self.sample_behind(1),
                self.sample_ahead(0),
                self.sample_ahead(1),
                self.sample_ahead(2),
                self.sample_ahead(3),
            ],
            fraction: self.fraction,
            volume: self.volume,
            pan: self.pan,
        };
        assert(r.window =~= self@.tap().window);
        r
    }

    /// Moves the cursor on by one output frame. Returns whether the voice
    /// still plays.
    pub fn advance(&mut self) -> (playing: bool)
        requires
            old(self).wf(),
        ensures
            final(self)@ == old(self)@.advanced(),
            final(self).wf(),
            playing == final(self).playing,
    {
        proof {
            lemma_advanced_wf(self@);
        }
        let total: u64 = self.fraction as u64 + self.frequency as u64;
        let step: u64 = total / (SAMPLE_RATE as u64);
        let fraction: u32 = (total % (SAMPLE_RATE as u64)) as u32;
        let room: usize = self.len - self.position;
        if step < room as u64 {
            self.position = self.position + step as usize;
            self.fraction = fraction;
        } else if self.looping && self.nloops != 1 {
            let over: u64 = step - room as u64;
            proof {
                lemma_mod_add_multiples_vanish(over as int, self.len as int);
            }
            self.position = (over % (self.len as u64)) as usize;
            self.fraction = fraction;
            if self.nloops != -1 {
                self.nloops = self.nloops - 1;
            }
        } else {
            self.position = 0;
            self.fraction = 0;
            self.playing = false;
        }
        self.playing
    }
}

/// The views of a run of voices.
pub open spec fn views(bufs: Seq<RenderBuffer>) -> Seq<Voice> {
    Seq::new(bufs.len(), |i: int| bufs[i]@)
}

/// Every voice of the run is well formed.
pub open spec fn all_wf(bufs: Seq<RenderBuffer>) -> bool {
    forall|i: int| 0 <= i < bufs.len() ==> (#[trigger] bufs[i]).wf()
}

/// `after` is `before` with amplitudes added that `kernel` gave for
/// `taps`, one for each tap, in order.
pub open spec fn rendered<F: Fn(&Tap) -> (i16, i16)>(
    kernel: &F,
    taps: Seq<Tap>,
    before: u32,
    after: u32,
) -> bool {
    exists|amps: Seq<(i16, i16)>|
        {
            &&& amps.len() == taps.len()
            &&& forall|j: int|
                0 <= j < taps.len() ==> call_ensures(kernel, (&taps[j],), #[trigger] amps[j])
            &&& after == mixed(before, amps)
        }
}

/// A kernel that gives one answer for each tap leaves one frame only:
/// the same taps mixed onto the same word give the same word, so that a
/// song played twice with such a kernel sounds the same twice.
pub proof fn lemma_rendered_once<F: Fn(&Tap) -> (i16, i16)>(
    kernel: &F,
    taps: Seq<Tap>,
    before: u32,
    one: u32,
    other: u32,
)
    requires
        forall|tap: Tap, a: (i16, i16), b: (i16, i16)|
            call_ensures(kernel, (&tap,), a) && call_ensures(kernel, (&tap,), b) ==> a == b,
        rendered(kernel, taps, before, one),
        rendered(kernel, taps, before, other),
    ensures
        one == other,
{
    let a = choose|amps: Seq<(i16, i16)>|
        {
            &&& amps.len() == taps.len()
            &&& forall|j: int|
                0 <= j < taps.len() ==> call_ensures(kernel, (&taps[j],), #[trigger] amps[j])
            &&& one == mixed(before, amps)
        };
    let b = choose|amps: Seq<(i16, i16)>|
        {
            &&& amps.len() == taps.len()
            &&& forall|j: int|
                0 <= j < taps.len() ==> call_ensures(kernel, (&taps[j],), #[trigger] amps[j])
            &&& other == mixed(before, amps)
        };
    assert forall|j: int| 0 <= j < taps.len() implies a[j] == b[j] by {
        assert(call_ensures(kernel, (&taps[j],), a[j]));
        assert(call_ensures(kernel, (&taps[j],), b[j]));
    }
    assert(a =~= b);
}

/// Taking one more voice into account adds its tap if it sounds.
proof fn lemma_frame_taps_step(voices: Seq<Voice>, i: int)
    requires
        0 <= i < voices.len(),
    ensures
        frame_taps(voices.take(i + 1)) == if voices[i].sounds() {
            frame_taps(voices.take(i)).push(voices[i].tap())
        } else {
            frame_taps(voices.take(i))
        },
{
    assert(voices.take(i + 1).drop_last() =~= voices.take(i));
    assert(voices.take(i + 1).last() == voices[i]);
}

/// Mixes one output frame. Every playing voice is tapped and moved on by
/// one frame; unless it stopped on this frame, `kernel` turns its tap
/// into a left and a right amplitude, which are added to `frame`, each
/// channel saturating. Voices at rest are left alone.
pub fn mix<F: Fn(&Tap) -> (i16, i16)>(frame: u32, srcs: &mut Vec<RenderBuffer>, kernel: &F) -> (r:
    u32)
    requires
        all_wf(old(srcs)@),
        forall|t: Tap| call_requires(kernel, (&t,)),
    ensures
        views(final(srcs)@) == stepped_voices(views(old(srcs)@)),
        all_wf(final(srcs)@),
        rendered(kernel, frame_taps(views(old(srcs)@)), frame, r),
{
    let ghost before = views(srcs@);
    let ghost mut amps: Seq<(i16, i16)> = Seq::empty();
    let mut acc = frame;
    let mut i: usize = 0;
    while i < srcs.len()
        invariant
            forall|t: Tap| call_requires(kernel, (&t,)),
            before == views(old(srcs)@),
            srcs.len() == before.len(),
            i <= srcs.len(),
            all_wf(srcs@),
            forall|k: int| 0 <= k < i ==> (#[trigger] srcs[k])@ == before[k].stepped(),
            forall|k: int| i <= k < srcs.len() ==> (#[trigger] srcs[k])@ == before[k],
            amps.len() == frame_taps(before.take(i as int)).len(),
            forall|j: int|
                0 <= j < amps.len() ==> call_ensures(
                    kernel,
                    (&frame_taps(before.take(i as int))[j],),
                    #[trigger] amps[j],
                ),
            acc == mixed(frame, amps),
        decreases srcs.len() - i,
    {
        proof {
            lemma_frame_taps_step(before, i as int);
        }
        if srcs[i].playing {
            let tap = srcs[i].tap();
            let playing = srcs[i].advance();
            if playing {
                let amp = kernel(&tap);
                acc = accumulate(acc, amp.0, amp.1);
                proof {
                    assert(amps.push(amp).drop_last() =~= amps);
                    amps = amps.push(amp);
                }
            }
        }
        i += 1;
    }
    proof {
        assert(before.take(i as int) =~= before);
        assert(views(srcs@) =~= stepped_voices(before));
    }
    acc
}

/// Layout of the waveforms of the melodic instruments.
pub open spec fn melodic_format() -> WavFormat {
    WavFormat { channels: 1, sample_rate: 22050, bit_depth: 8 }
}

/// Voice `i` of an engine that has not played yet. A melodic voice lies
/// over the expanded wavetable of its track's instrument, made from the
/// bank's waveform with the sign of every sample flipped; a drum voice
/// lies over its channel's sample as the bank holds it.
pub open spec fn initial_voice(song: Song, bank: SoundBank, i: int) -> Voice {
    if i < DRUM_VOICES {
        let index = song.tracks[i % 8].inst.inst as int;
        Voice::fresh(melodic_format(), wavetable(flipped(bank.wave(index))))
    } else {
        let index = song.tracks[i - (DRUM_VOICES - MELODIC_TRACKS)].inst.inst as int;
        Voice::fresh(bank.samples@[index].format, bank.samples@[index].data@)
    }
}

/// The state of an engine that has not played yet: every track at rest
/// at tick 0, and the loop to be repeated once.
pub open spec fn initial_state(song: Song, bank: SoundBank) -> Sequencer {
    Sequencer {
        lengths: Seq::new(MELODIC_TRACKS as nat, |t: int| 0int),
        swaps: Seq::new(MELODIC_TRACKS as nat, |t: int| 0int),
        keys: Seq::new(MELODIC_TRACKS as nat, |t: int| NO_CHANGE as int),
        voices: Seq::new(VOICES as nat, |i: int| initial_voice(song, bank, i)),
        play_pos: 0,
        frames_this_tick: 0,
        frames_per_tick: frames_per_tick_of(song.time.wait as int),
        frames_done: 0,
        loops: 1,
        extra: 0,
    }
}

/// An engine that has not played yet is well formed.
pub proof fn lemma_initial_state_wf(song: Song, bank: SoundBank)
    requires
        song.playable(),
        bank.serves(song),
    ensures
        initial_state(song, bank).wf(song),
{
    let s = initial_state(song, bank);
    assert forall|i: int| 0 <= i < DRUM_VOICES implies melodic_voice_ok(
        #[trigger] s.voices[i],
        octave_of_voice(i),
    ) by {
        lemma_stride(octave_of_voice(i));
    }
    assert forall|i: int| DRUM_VOICES <= i < VOICES implies drum_voice_ok(
        #[trigger] s.voices[i],
    ) by {
        let t = i - (DRUM_VOICES - MELODIC_TRACKS);
        assert(bank.serves_track(song, t));
        let index = song.tracks[t].inst.inst as int;
        let depth = bank.samples@[index].format.bit_depth as int;
        let size = bank.samples@[index].data@.len() as int;
        assert(size > 0) by (nonlinear_arith)
            requires
                depth > 0,
                0 < size / depth,
                size >= 0,
        ;
    }
    assert(frames_per_tick_of(song.time.wait as int) >= 0);
}

/// The sequencer of a song over the voices of a sound bank.
pub struct PlaybackEngine {
    song: Song,
    lengths: [u8; 8],
    swaps: [usize; 8],
    keys: [u8; 8],
    track_buffers: Vec<RenderBuffer>,
    play_pos: i32,
    frames_this_tick: usize,
    frames_per_tick: usize,
    frames_done: u32,
    loops: usize,
    extra: u32,
}

impl View for PlaybackEngine {
    type V = Sequencer;

    closed spec fn view(&self) -> Sequencer {
        Sequencer {
            lengths: Seq::new(MELODIC_TRACKS as nat, |t: int| self.lengths[t] as int),
            swaps: Seq::new(MELODIC_TRACKS as nat, |t: int| self.swaps[t] as int),
            keys: Seq::new(MELODIC_TRACKS as nat, |t: int| self.keys[t] as int),
            voices: views(self.track_buffers@),
            play_pos: self.play_pos as int,
            frames_this_tick: self.frames_this_tick as int,
            frames_per_tick: self.frames_per_tick as int,
            frames_done: self.frames_done as int,
            loops: self.loops as int,
            extra: self.extra as int,
        }
    }
}

impl PlaybackEngine {
    /// The song that the engine plays.
    pub closed spec fn song(&self) -> Song {
        self.song
    }

    /// The state suits the song: see `Sequencer::wf`.
    pub open spec fn wf(&self) -> bool {
        self@.wf(self.song())
    }

    /// The length of the song in frames fits the counter of frames.
    pub open spec fn total_fits(&self) -> bool {
        self@.total_frames(self.song()) <= u32::MAX
    }

    /// The ticks still to come fit the counter of ticks: see
    /// `Sequencer::ticks_fit`.
    pub open spec fn ticks_fit(&self) -> bool {
        self@.ticks_fit(self.song())
    }

    /// The waveform of a melodic instrument as the voices read it: the
    /// bank's samples with the sign of each flipped.
    fn unsigned_wave(samples: &SoundBank, index: usize) -> (r: Vec<u8>)
        requires
            samples.has_wave(index as int),
        ensures
            r@ == flipped(samples.wave(index as int)),
    {
        let wave = samples.get_wave(index);
        let mut sound: Vec<u8> = Vec::new();
        let mut n: usize = 0;
        while n < wave.len()
            invariant
                n <= wave.len(),
                sound@.len() == n,
                forall|k: int| 0 <= k < n ==> sound@[k] == flip_sign(wave@[k]),
            decreases wave.len() - n,
        {
            sound.push(wave[n] ^ 128);
            n += 1;
        }
        assert(sound@ =~= flipped(wave@));
        sound
    }

    /// An engine at the start of `song`, with a voice for every octave of
    /// every melodic track, twice over, and one for every drum channel.
    pub fn new(song: Song, samples: SoundBank) -> (r: PlaybackEngine)
        requires
            song.playable(),
            samples.serves(song),
        ensures
            r.wf(),
            r.song() == song,
            r@ == initial_state(song, samples),
            song.time.loop_range.start < song.time.loop_range.end ==> r.ticks_fit(),
    {
        let mut protos: Vec<RenderBuffer> = Vec::new();
        let mut track: usize = 0;
        while track < MELODIC_TRACKS
            invariant
                track <= MELODIC_TRACKS,
                samples.serves(song),
                protos@.len() == track,
                forall|k: int| 0 <= k < track ==> (#[trigger] protos@[k])@ == initial_voice(song, samples, k),
            decreases MELODIC_TRACKS - track,
        {
            assert(samples.serves_track(song, track as int));
            let sound_index = song.tracks[track].inst.inst as usize;
            let sound = Self::unsigned_wave(&samples, sound_index);
            let format = WavFormat { channels: 1, sample_rate: 22050, bit_depth: 8 };
            protos.push(RenderBuffer::new_organya(WavSample { format, data: sound }));
            track += 1;
        }
        let mut buffers: Vec<RenderBuffer> = Vec::new();
        let mut i: usize = 0;
        while i < DRUM_VOICES
            invariant
                i <= DRUM_VOICES,
                protos@.len() == MELODIC_TRACKS,
                forall|k: int|
                    0 <= k < MELODIC_TRACKS ==> (#[trigger] protos@[k])@ == initial_voice(song, samples, k),
                buffers@.len() == i,
                forall|k: int| 0 <= k < i ==> (#[trigger] buffers@[k])@ == initial_voice(song, samples, k),
            decreases DRUM_VOICES - i,
        {
            assert((i % 8) % 8 == i % 8);
            buffers.push(protos[i % 8].clone());
            i += 1;
        }
        let mut channel: usize = MELODIC_TRACKS;
        while channel < TRACKS
            invariant
                MELODIC_TRACKS <= channel <= TRACKS,
                samples.serves(song),
                buffers@.len() == channel + (DRUM_VOICES - MELODIC_TRACKS),
                forall|k: int|
                    0 <= k < buffers@.len() ==> (#[trigger] buffers@[k])@ == initial_voice(
                        song,
                        samples,
                        k,
                    ),
            decreases TRACKS - channel,
        {
            assert(samples.serves_track(song, channel as int));
            let index = song.tracks[channel].inst.inst as usize;
            buffers.push(RenderBuffer::new(samples.samples[index].clone()));
            channel += 1;
        }
        let frames_per_tick = song.time.wait as usize * 441 / 10;
        let r = PlaybackEngine {
            song,
            lengths: [0;8],
            swaps: [0;8],
            keys: [NO_CHANGE;8],
            track_buffers: buffers,
            play_pos: 0,
            frames_this_tick: 0,
            frames_per_tick,
            frames_done: 0,
            loops: 1,
            extra: 0,
        };
        proof {
            lemma_initial_state_wf(song, samples);
            assert(r@.voices =~= initial_state(song, samples).voices);
            assert(r@.lengths =~= initial_state(song, samples).lengths);
            assert(r@.swaps =~= initial_state(song, samples).swaps);
            assert(r@.keys =~= initial_state(song, samples).keys);
            assert(r@ =~= initial_state(song, samples));
        }
        r
    }

    /// Moves playback to tick `position`. From a tick at or after the end
    /// of the loop playback is not led back into the loop.
    pub fn set_position(&mut self, position: i32)
        requires
            old(self).wf(),
        ensures
            final(self).wf(),
            final(self).song() == old(self).song(),
            final(self)@ == (Sequencer { play_pos: position as int, ..old(self)@ }),
    {
        self.play_pos = position;
    }

    /// Sets how often the loop is repeated after it was played once.
    pub fn set_loops(&mut self, loops: usize)
        requires
            old(self).wf(),
        ensures
            final(self).wf(),
            final(self).song() == old(self).song(),
            final(self)@ == (Sequencer { loops: loops as int, ..old(self)@ }),
            old(self)@.in_loop(old(self).song()) ==> final(self).ticks_fit(),
    {
        self.loops = loops;
    }

    /// Sets the seconds that are added after the last repeat.
    pub fn set_extra(&mut self, extra: u32)
        requires
            old(self).wf(),
        ensures
            final(self).wf(),
            final(self).song() == old(self).song(),
            final(self)@ == (Sequencer { extra: extra as int, ..old(self)@ }),
            old(self)@.in_loop(old(self).song()) ==> final(self).ticks_fit(),
    {
        self.extra = extra;
    }

    /// The length of the song in frames, in a type that holds it
    /// whatever the number of repeats.
    fn wide_total_samples(&self) -> (frames: u128)
        requires
            self.wf(),
        ensures
            frames == self@.total_frames(self.song()),
    {
        let start = self.song.time.loop_range.start;
        let end = self.song.time.loop_range.end;
        let ticks_loop: u128 = (end - start) as u128;
        let repeats: u128 = self.loops as u128;
        let per_tick: u128 = self.frames_per_tick as u128;
        let extra: u128 = self.extra as u128;
        assert(ticks_loop * repeats <= 0x8000_0000 * 0x1_0000_0000_0000_0000) by (nonlinear_arith)
            requires
                0 <= ticks_loop <= 0x8000_0000,
                0 <= repeats <= 0x1_0000_0000_0000_0000,
        ;
        let ticks_total: u128 = end as u128 + ticks_loop * repeats;
        assert(per_tick <= 65535 * 441 / 10);
        assert(per_tick * ticks_total <= 2890093 * 0x1_0000_0000_0000_0000_0000_0000)
            by (nonlinear_arith)
            requires
                0 <= per_tick <= 2890093,
                0 <= ticks_total <= 0x1_0000_0000_0000_0000_0000_0000,
        ;
        let frames: u128 = per_tick * ticks_total + extra * (SAMPLE_RATE as u128);
        assert(frames == self@.total_frames(self.song)) by (nonlinear_arith)
            requires
                frames == per_tick * ticks_total + extra * 44100,
                ticks_total == end + ticks_loop * repeats,
                ticks_loop == end - start,
                self@.total_frames(self.song) == per_tick * (start + (end - start) + (end - start)
                    * repeats) + extra * 44100,
        ;
        frames
    }

    /// The length of the song in frames, if it fits the counter of
    /// frames.
    pub fn checked_total_samples(&self) -> (r: Option<u32>)
        requires
            self.wf(),
        ensures
            match r {
                Some(total) => self.total_fits() && total == self@.total_frames(self.song()),
                None => !self.total_fits(),
            },
    {
        let frames = self.wide_total_samples();
        if frames <= u32::MAX as u128 {
            Some(frames as u32)
        } else {
            None
        }
    }

    /// Whether the song can be played from here to its end: its length in
    /// frames fits the counter of frames, and the ticks still to come fit
    /// the counter of ticks. The second holds of every song with a loop
    /// that is not empty as long as playback is not moved past the loop.
    pub fn fits(&self) -> (ok: bool)
        requires
            self.wf(),
        ensures
            ok == (self.total_fits() && self.ticks_fit()),
    {
        let total = self.wide_total_samples();
        if total > u32::MAX as u128 {
            return false;
        }
        let start = self.song.time.loop_range.start;
        let end = self.song.time.loop_range.end;
        if start < end && self.play_pos < end {
            return true;
        }
        if self.frames_per_tick == 0 {
            return true;
        }
        let done: u128 = self.frames_done as u128;
        let left: u128 = if done < total {
            total - done
        } else {
            0
        };
        let ticks: u128 = (self.frames_this_tick as u128 + left) / (self.frames_per_tick as u128);
        assert(ticks == self@.ticks_left(self.song));
        if ticks > i32::MAX as u128 {
            return false;
        }
        let ticks: i64 = ticks as i64;
        self.play_pos as i64 + ticks <= i32::MAX as i64 && end as i64 + ticks <= i32::MAX as i64
    }

    /// The length of the song in frames: the ticks up to the end of the
    /// loop, the ticks of the loop for each repeat, and the seconds added
    /// after them.
    pub fn get_total_samples(&self) -> (r: u32)
        requires
            self.wf(),
            self.total_fits(),
        ensures
            r == self@.total_frames(self.song()),
    {
        self.wide_total_samples() as u32
    }

    /// Index of the voice that `track` uses for the key it sounds.
    fn get_active_buffer_for_track(&self, track: usize) -> (j: usize)
        requires
            self.wf(),
            track < MELODIC_TRACKS,
            self@.sounding(track as int),
        ensures
            j == self@.active_voice(track as int),
            j < DRUM_VOICES,
    {
        proof {
            lemma_active_voice(self@, self.song, track as int);
        }
        (self.keys[track] / 12) as usize * 8 + track + self.swaps[track]
    }

    /// Whether `track` sounds a note.
    fn track_is_playing(&self, track: usize) -> (r: bool)
        requires
            track < MELODIC_TRACKS,
        ensures
            r == self@.sounding(track as int),
    {
        self.keys[track] != NO_CHANGE
    }

    /// Whether the count of `track` has run out.
    fn note_ended(&self, track: usize) -> (r: bool)
        requires
            track < MELODIC_TRACKS,
        ensures
            r == (self@.lengths[track as int] == 0),
    {
        self.lengths[track] == 0
    }

    /// Lets the voice of `track` go: without envelope it stops looping.
    fn track_kill_note(&mut self, track: usize)
        requires
            old(self).wf(),
            track < MELODIC_TRACKS,
            old(self)@.sounding(track as int),
        ensures
            final(self).wf(),
            final(self).song == old(self).song,
            final(self)@ == old(self)@.released(
                old(self).song.tracks[track as int].inst,
                track as int,
            ),
    {
        let j = self.get_active_buffer_for_track(track);
        proof {
            lemma_released_wf(
                self@,
                self.song,
                self.song.tracks[track as int].inst,
                track as int,
            );
        }
        if self.song.tracks[track].inst.pipi == 0 {
            self.track_buffers[j].looping = false;
            assert(self@.voices =~= old(self)@.voices.update(
                j as int,
                Voice { looping: false, ..old(self)@.voices[j as int] },
            ));
        }
    }

    /// Starts `note` on `track`. A track that sounds lets its voice go
    /// and changes to the other copy of its voices, so that the new note
    /// starts on a voice of its own. The octave is selected before the
    /// voice is started, so that a voice at rest of an instrument with an
    /// envelope is given its count of passes.
    fn track_play_note(&mut self, track: usize, note: Note)
        requires
            old(self).wf(),
            track < MELODIC_TRACKS,
            note.key < KEY_LIMIT,
        ensures
            final(self).wf(),
            final(self).song == old(self).song,
            final(self)@ == old(self)@.triggered(
                old(self).song.tracks[track as int].inst,
                track as int,
                note,
            ),
    {
        let inst = self.song.tracks[track].inst;
        let ghost before = self@;
        proof {
            lemma_triggered_wf(before, self.song, inst, track as int, note);
            crate::sequencer::lemma_melodic_frequency_bounds(inst, note.key);
        }
        if self.track_is_playing(track) {
            self.track_kill_note(track);
            let ghost let_go = self@;
            assert(0usize ^ 64 == 64) by (bit_vector);
            assert(64usize ^ 64 == 0) by (bit_vector);
            assert(self.swaps[track as int] == 0 || self.swaps[track as int] == SWAP) by {
                assert(before.swaps[track as int] == 0 || before.swaps[track as int] == SWAP);
            }
            self.swaps[track] = self.swaps[track] ^ SWAP;
            assert(self@ =~= let_go.swapped(track as int));
        }
        let ghost swapped = self@;
        self.keys[track] = note.key;
        let ghost keyed = self@;
        assert(keyed =~= (Sequencer {
            keys: swapped.keys.update(track as int, note.key as int),
            ..swapped
        }));
        let octave: usize = (note.key / 12) as usize;
        assert(self.swaps[track as int] == 0 || self.swaps[track as int] == SWAP) by {
            assert(swapped.swaps[track as int] == 0 || swapped.swaps[track as int] == SWAP);
        }
        let l = octave * 8 + track + self.swaps[track];
        assert(l == keyed.active_voice(track as int));
        let freq = frequency_word(org_key_to_freq(note.key, offset_of(inst.freq)));
        self.track_buffers[l].organya_select_octave(octave, inst.pipi != 0);
        self.track_buffers[l].playing = true;
        self.track_buffers[l].looping = true;
        self.track_buffers[l].set_frequency(freq);
        self.lengths[track] = note.len;
        proof {
            let started = Voice {
                playing: true,
                looping: true,
                frequency: melodic_frequency(inst, note.key),
                ..keyed.voices[l as int].select_octave(octave as int, inst.pipi != 0)
            };
            assert(self@.voices =~= keyed.voices.update(l as int, started));
            assert(self@.lengths =~= keyed.lengths.update(track as int, note.len as int));
            assert(self@.keys =~= keyed.keys);
            assert(self@.swaps =~= keyed.swaps);
            assert(self@ =~= before.triggered(inst, track as int, note));
        }
    }

    /// Gives the voice that `track` sounds the volume and pan of `note`,
    /// where the note has them.
    fn track_shape_note(&mut self, track: usize, note: Note)
        requires
            old(self).wf(),
            track < MELODIC_TRACKS,
            note.pan_ok(),
        ensures
            final(self).wf(),
            final(self).song == old(self).song,
            final(self)@ == old(self)@.shaped(track as int, note),
    {
        let ghost before = self@;
        proof {
            lemma_shaped_wf(before, self.song, track as int, note);
        }
        if self.track_is_playing(track) {
            let j = self.get_active_buffer_for_track(track);
            if note.vol != NO_CHANGE {
                let vol = org_vol_to_vol(note.vol);
                self.track_buffers[j].set_volume(vol);
            }
            if note.pan != NO_CHANGE {
                let pan = org_pan_to_pan(note.pan);
                self.track_buffers[j].set_pan(pan);
            }
            assert(self@.voices =~= before.voices.update(
                j as int,
                Sequencer::shaped_voice(before.voices[j as int], note),
            ));
        }
    }

    /// One tick of melodic track `track`.
    fn update_track(&mut self, track: usize)
        requires
            old(self).wf(),
            track < MELODIC_TRACKS,
        ensures
            final(self).wf(),
            final(self).song == old(self).song,
            final(self)@ == old(self)@.melodic_step(old(self).song, track as int),
    {
        let ghost before = self@;
        let ghost inst = self.song.tracks[track as int].inst;
        proof {
            lemma_note_at(self.song.tracks[track as int].notes@, self.play_pos as int);
            assert(self.song.tracks[track as int].notes_ok(track < MELODIC_TRACKS));
        }
        match find_note(&self.song.tracks[track].notes, self.play_pos) {
            Some(note) => {
                assert(note.melodic_ok());
                if note.key != NO_CHANGE {
                    self.track_play_note(track, note);
                }
                self.track_shape_note(track, note);
            },
            None => {},
        }
        let ghost heard = self@;
        if self.note_ended(track) {
            if self.track_is_playing(track) {
                self.track_kill_note(track);
                let ghost let_go = self@;
                self.keys[track] = NO_CHANGE;
                assert(self@ =~= (Sequencer {
                    keys: let_go.keys.update(track as int, NO_CHANGE as int),
                    ..let_go
                }));
            }
        }
        let ghost checked = self@;
        assert(checked == heard.expired(inst, track as int));
        self.lengths[track] = self.lengths[track].saturating_sub(1);
        proof {
            assert(self@.lengths =~= checked.aged(track as int).lengths);
            assert(self@ =~= checked.aged(track as int));
            crate::sequencer::lemma_melodic_step_wf(before, self.song, track as int);
        }
    }

    /// One tick of drum channel `channel`. A note with a key restarts
    /// the channel's sample, whatever it was doing; a drum has no length
    /// and no envelope.
    fn update_drum(&mut self, channel: usize)
        requires
            old(self).wf(),
            MELODIC_TRACKS <= channel < TRACKS,
        ensures
            final(self).wf(),
            final(self).song == old(self).song,
            final(self)@ == old(self)@.drum_step(old(self).song, channel as int),
    {
        let ghost before = self@;
        let j = channel + (DRUM_VOICES - MELODIC_TRACKS);
        proof {
            lemma_note_at(self.song.tracks[channel as int].notes@, self.play_pos as int);
            assert(self.song.tracks[channel as int].notes_ok(channel < MELODIC_TRACKS));
            lemma_drum_step_wf(before, self.song, channel as int);
            assert(drum_voice_ok(before.voices[j as int]));
        }
        match find_note(&self.song.tracks[channel].notes, self.play_pos) {
            Some(note) => {
                assert(note.pan_ok());
                if note.key != NO_CHANGE {
                    let freq = org_key_to_drum_freq(note.key);
                    self.track_buffers[j].set_frequency(freq as u32);
                    self.track_buffers[j].set_position(0);
                    self.track_buffers[j].playing = true;
                }
                if note.vol != NO_CHANGE {
                    let vol = org_vol_to_vol(note.vol);
                    self.track_buffers[j].set_volume(vol);
                }
                if note.pan != NO_CHANGE {
                    let pan = org_pan_to_pan(note.pan);
                    self.track_buffers[j].set_pan(pan);
                }
                assert(self@.voices =~= before.voices.update(
                    j as int,
                    Sequencer::drum_voice(before.voices[j as int], note),
                ));
            },
            None => {},
        }
    }

    /// One tick: every melodic track in order, then every drum channel.
    /// `render_to` does this on the first frame of every tick.
    pub fn update_play_state(&mut self)
        requires
            old(self).wf(),
        ensures
            final(self).wf(),
            final(self).song() == old(self).song(),
            final(self)@ == old(self)@.tick(old(self).song()),
    {
        let ghost before = self@;
        let mut track: usize = 0;
        while track < MELODIC_TRACKS
            invariant
                track <= MELODIC_TRACKS,
                self.wf(),
                self.song == old(self).song,
                self@ == before.melodic_pass(self.song, track as int),
            decreases MELODIC_TRACKS - track,
        {
            self.update_track(track);
            track += 1;
        }
        let ghost sung = self@;
        let mut channel: usize = MELODIC_TRACKS;
        while channel < TRACKS
            invariant
                MELODIC_TRACKS <= channel <= TRACKS,
                self.wf(),
                self.song == old(self).song,
                self@ == sung.drum_pass(self.song, channel - MELODIC_TRACKS),
            decreases TRACKS - channel,
        {
            self.update_drum(channel);
            channel += 1;
        }
    }

    /// Plays the song into `buf`, one frame for each word, until the
    /// buffer is full or the song is over, and returns the number of
    /// frames played.
    ///
    /// Each frame is mixed onto the word that `buf` holds for it: the
    /// first frame of a tick plays the tick's notes, then every voice
    /// that sounds is handed to `kernel`, and the amplitudes that come
    /// back are added to the word, saturating.
    pub fn render_to<F: Fn(&Tap) -> (i16, i16)>(&mut self, buf: &mut [u32], kernel: &F) -> (n:
        usize)
        requires
            old(self).wf(),
            old(self).total_fits(),
            old(self).ticks_fit(),
            forall|t: Tap| call_requires(kernel, (&t,)),
        ensures
            final(self).wf(),
            final(self).total_fits(),
            final(self).ticks_fit(),
            final(self).song() == old(self).song(),
            n <= old(buf)@.len(),
            n == old(buf)@.len() || n == old(self)@.frames_left(old(self).song()),
            n <= old(self)@.frames_left(old(self).song()),
            final(self)@ == old(self)@.run(old(self).song(), n as nat),
            final(self)@.frames_done == old(self)@.frames_done + n,
            final(self)@.total_frames(final(self).song()) == old(self)@.total_frames(
                old(self).song(),
            ),
            final(buf)@.len() == old(buf)@.len(),
            forall|i: int|
                0 <= i < n ==> rendered(
                    kernel,
                    old(self)@.run(old(self).song(), i as nat).taps(old(self).song()),
                    old(buf)@[i],
                    #[trigger] final(buf)@[i],
                ),
            forall|i: int| n <= i < old(buf)@.len() ==> final(buf)@[i] == old(buf)@[i],
    {
        let ghost before = self@;
        let ghost song = self.song;
        let total = self.get_total_samples();
        let mut i: usize = 0;
        proof {
            lemma_run_wf(before, song, 0);
        }
        while i < buf.len() && self.frames_done < total
            invariant
                forall|t: Tap| call_requires(kernel, (&t,)),
                self.wf(),
                self.ticks_fit(),
                self.song == song,
                before.wf(song),
                before.ticks_fit(song),
                total == before.total_frames(song),
                total == self@.total_frames(song),
                i <= buf@.len(),
                buf@.len() == old(buf)@.len(),
                i <= before.frames_left(song),
                self@ == before.run(song, i as nat),
                self.frames_done == before.frames_done + i,
                forall|k: int|
                    0 <= k < i ==> rendered(
                        kernel,
                        before.run(song, k as nat).taps(song),
                        old(buf)@[k],
                        #[trigger] buf@[k],
                    ),
                forall|k: int| i <= k < buf@.len() ==> buf@[k] == old(buf)@[k],
            decreases buf@.len() - i,
        {
            let ghost now = self@;
            proof {
                lemma_frame_wf(now, song);
                lemma_run_wf(before, song, (i + 1) as nat);
                if now.frames_per_tick > 0 {
                    crate::sequencer::lemma_ticks_left_step(
                        now.frames_per_tick,
                        now.frames_this_tick,
                        now.frames_left(song),
                    );
                }
                if now.frames_this_tick == 0 {
                    lemma_tick_wf(now, song);
                }
                lemma_stepped_voices_wf(now.begin_frame(song), song);
            }
            if self.frames_this_tick == 0 {
                self.update_play_state();
            }
            let ghost begun = self@;
            assert(begun == now.begin_frame(song));
            assert forall|k: int| 0 <= k < self.track_buffers@.len() implies (
            #[trigger] self.track_buffers@[k]).wf() by {
                assert(begun.voices[k] == self.track_buffers@[k]@);
                if k < DRUM_VOICES {
                    assert(melodic_voice_ok(begun.voices[k], octave_of_voice(k)));
                } else {
                    assert(drum_voice_ok(begun.voices[k]));
                }
            }
            let frame = mix(buf[i], &mut self.track_buffers, kernel);
            buf[i] = frame;
            let ghost mixed_state = self@;
            assert(mixed_state =~= (Sequencer { voices: stepped_voices(begun.voices), ..begun }));
            self.frames_done += 1;
            self.frames_this_tick += 1;
            if self.frames_this_tick == self.frames_per_tick {
                self.play_pos += 1;
                if self.play_pos == self.song.time.loop_range.end {
                    self.play_pos = self.song.time.loop_range.start;
                }
                self.frames_this_tick = 0;
            }
            assert(self@ =~= mixed_state.end_frame(song));
            assert(self@ == now.frame(song));
            i += 1;
        }
        proof {
            lemma_run_wf(before, song, i as nat);
        }
        i
    }

    /// Tick being played.
    pub fn position(&self) -> (r: i32)
        ensures
            r == self@.play_pos,
    {
        self.play_pos
    }

    /// Frames played so far.
    pub fn frames_done(&self) -> (r: u32)
        ensures
            r == self@.frames_done,
    {
        self.frames_done
    }

    /// Frames in a tick.
    pub fn frames_per_tick(&self) -> (r: usize)
        ensures
            r == self@.frames_per_tick,
    {
        self.frames_per_tick
    }

    /// Times the loop is repeated after it was played once.
    pub fn loops(&self) -> (r: usize)
        ensures
            r == self@.loops,
    {
        self.loops
    }

    /// Seconds added after the last repeat.
    pub fn extra(&self) -> (r: u32)
        ensures
            r == self@.extra,
    {
        self.extra
    }

    /// Index of the voice that `track` sounds, if it sounds one.
    pub fn active_buffer(&self, track: usize) -> (r: Option<usize>)
        requires
            self.wf(),
            track < MELODIC_TRACKS,
        ensures
            r == if self@.sounding(track as int) {
                Some(self@.active_voice(track as int) as usize)
            } else {
                None
            },
    {
        if self.track_is_playing(track) {
            Some(self.get_active_buffer_for_track(track))
        } else {
            None
        }
    }

    /// Voice `i`.
    pub fn track_buffer(&self, i: usize) -> (r: &RenderBuffer)
        requires
            self.wf(),
            i < VOICES,
        ensures
            r@ == self@.voices[i as int],
    {
        &self.track_buffers[i]
    }
}

} // verus!
