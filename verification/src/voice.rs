//! The mathematical state of one playback voice: a cursor that advances
//! through a region of a waveform at a rational rate.
//!
//! The cursor is kept exactly. Its whole part is a sample index inside the
//! region; its fractional part is a count of `1 / SAMPLE_RATE` steps. One
//! output frame moves it by `frequency / SAMPLE_RATE` samples, so the
//! fractional part grows by `frequency` steps.

use vstd::prelude::*;
use crate::wav::WavFormat;

verus! {

/// Output frames per second, and the denominator of a cursor's fraction.
pub const SAMPLE_RATE: u32 = 44100;

/// Offset of each octave's region inside an expanded wavetable.
pub const OFFS: [usize; 8] = [0, 256, 512, 640, 768, 832, 864, 880];

/// Length of each octave's region inside an expanded wavetable.
pub const LENS: [usize; 8] = [256, 256, 128, 128, 64, 32, 16, 8];

/// Length of an expanded wavetable: the eight regions together.
pub const TABLE_LEN: usize = 888;

/// Length of the waveform an expanded wavetable is made from.
pub const WAVE_LEN: usize = 256;

/// Lowest volume and pan, in centibel.
pub const CENTIBEL_MIN: i32 = -10000;

/// Highest pan, in centibel.
pub const CENTIBEL_MAX: i32 = 10000;

/// What the interpolation kernel is given for one voice and one frame:
/// the six samples round the cursor, oldest first (two before it, the one
/// under it, three ahead), the cursor's fraction in steps of
/// `1 / SAMPLE_RATE`, and the voice's volume and pan in centibel.
#[derive(Clone, Copy, Debug)]
pub struct Tap {
    pub window: [u8; 6],
    pub fraction: u32,
    pub volume: i32,
    pub pan: i32,
}

/// State of one voice.
#[verifier::ext_equal]
pub struct Voice {
    /// Whole part of the cursor: a sample index relative to `base_pos`.
    pub position: int,
    /// Fractional part of the cursor, in steps of `1 / SAMPLE_RATE`.
    pub fraction: int,
    pub frequency: int,
    pub volume: int,
    pub pan: int,
    pub format: WavFormat,
    pub data: Seq<u8>,
    pub playing: bool,
    pub looping: bool,
    /// Start of the selected region inside `data`.
    pub base_pos: int,
    /// Length of the selected region.
    pub len: int,
    /// Passes left: -1 for no limit, 1 for "this pass is the last".
    pub nloops: int,
}

impl Voice {
    /// The region lies inside the data and is not empty, the cursor lies
    /// inside the region, and volume and pan are in their ranges.
    pub open spec fn wf(self) -> bool {
        &&& 0 <= self.base_pos
        &&& 1 <= self.len
        &&& self.base_pos + self.len <= self.data.len()
        &&& 0 <= self.position < self.len
        &&& 0 <= self.fraction < SAMPLE_RATE
        &&& 0 <= self.frequency <= u32::MAX
        &&& CENTIBEL_MIN <= self.volume <= 0
        &&& CENTIBEL_MIN <= self.pan <= CENTIBEL_MAX
        &&& -1 <= self.nloops <= i32::MAX
    }

    /// A voice at rest over the whole of `data`.
    pub open spec fn fresh(format: WavFormat, data: Seq<u8>) -> Voice {
        Voice {
            position: 0,
            fraction: 0,
            frequency: format.sample_rate as int,
            volume: 0,
            pan: 0,
            format,
            data,
            playing: false,
            looping: false,
            base_pos: 0,
            len: data.len() as int,
            nloops: -1,
        }
    }

    /// The voice after `octave`'s region was selected. A voice at rest
    /// of an instrument with an envelope is given `(octave + 1) * 4`
    /// passes; any other voice has no limit of passes.
    pub open spec fn select_octave(self, octave: int, pipi: bool) -> Voice {
        Voice {
            base_pos: OFFS[octave] as int,
            len: LENS[octave] as int,
            nloops: if pipi && !self.playing {
                (octave + 1) * 4
            } else {
                -1
            },
            ..self
        }
    }

    /// The data holds a whole wavetable and the cursor lies inside
    /// `octave`'s region.
    pub open spec fn fits_octave(self, octave: int) -> bool {
        &&& 0 <= octave < 8
        &&& TABLE_LEN <= self.data.len()
        &&& self.position < LENS[octave]
    }

    /// Index into `data` of the sample `offset` places from the cursor,
    /// held inside the selected region.
    pub open spec fn neighbour(self, offset: int) -> int {
        let at = self.base_pos + self.position + offset;
        let first = self.base_pos;
        let last = self.base_pos + self.len - 1;
        if at < first {
            first
        } else if at > last {
            last
        } else {
            at
        }
    }

    /// What the kernel is given for this voice.
    pub open spec fn tap(self) -> Tap {
        Tap {
            window: [
                self.data[self.neighbour(-2)],
                self.data[self.neighbour(-1)],
                self.data[self.neighbour(0)],
                self.data[self.neighbour(1)],
                self.data[self.neighbour(2)],
                self.data[self.neighbour(3)],
            ],
            fraction: self.fraction as u32,
            volume: self.volume as i32,
            pan: self.pan as i32,
        }
    }

    /// The voice one output frame later. A cursor that leaves the region
    /// wraps round while the voice loops and this pass is not its last,
    /// and uses up one pass if passes are counted; else the voice stops.
    pub open spec fn advanced(self) -> Voice {
        let total = self.fraction + self.frequency;
        let position = self.position + total / (SAMPLE_RATE as int);
        let fraction = total % (SAMPLE_RATE as int);
        if position < self.len {
            Voice { position, fraction, ..self }
        } else if self.looping && self.nloops != 1 {
            Voice {
                position: position % self.len,
                fraction,
                nloops: if self.nloops != -1 {
                    self.nloops - 1
                } else {
                    self.nloops
                },
                ..self
            }
        } else {
            Voice { position: 0, fraction: 0, playing: false, ..self }
        }
    }

    /// The voice after one frame of mixing: only a playing voice moves.
    pub open spec fn stepped(self) -> Voice {
        if self.playing {
            self.advanced()
        } else {
            self
        }
    }

    /// Whether the voice adds to the frame being mixed: it plays, and it
    /// does not stop on this frame.
    pub open spec fn sounds(self) -> bool {
        self.playing && self.advanced().playing
    }
}

/// A step keeps a voice well formed.
pub proof fn lemma_advanced_wf(v: Voice)
    requires
        v.wf(),
    ensures
        v.advanced().wf(),
        v.stepped().wf(),
{
    let total = v.fraction + v.frequency;
    let position = v.position + total / (SAMPLE_RATE as int);
    assert(0 <= total / (SAMPLE_RATE as int));
    assert(0 <= total % (SAMPLE_RATE as int) < SAMPLE_RATE);
    if position >= v.len {
        assert(0 <= position % v.len < v.len);
    }
}

/// The taps of the voices that sound, in the order of the voices.
pub open spec fn frame_taps(voices: Seq<Voice>) -> Seq<Tap>
    decreases voices.len(),
{
    if voices.len() == 0 {
        Seq::empty()
    } else {
        let before = frame_taps(voices.drop_last());
        if voices.last().sounds() {
            before.push(voices.last().tap())
        } else {
            before
        }
    }
}

/// Every voice after one frame of mixing.
pub open spec fn stepped_voices(voices: Seq<Voice>) -> Seq<Voice> {
    Seq::new(voices.len(), |i: int| voices[i].stepped())
}

} // verus!
