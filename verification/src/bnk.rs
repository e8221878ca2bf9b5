//! The sound bank: the waveforms of the melodic instruments and the
//! samples of the drums.

use vstd::prelude::*;
use vstd::slice::slice_subrange;
use crate::org::{Song, MELODIC_TRACKS, TRACKS};
use crate::voice::WAVE_LEN;
use crate::wav::WavSample;

verus! {

/// The waveforms of the melodic instruments, 256 signed samples each, one
/// after the other, and the drum samples.
#[derive(Debug)]
pub struct SoundBank {
    pub wave100: Vec<u8>,
    pub samples: Vec<WavSample>,
}

impl WavSample {
    /// The sample has a first frame for a drum to start from.
    pub open spec fn drum_ok(&self) -> bool {
        self.format.bit_depth > 0 && 0 < (self.data@.len() as int) / (self.format.bit_depth as int)
    }

    pub fn is_drum_ok(&self) -> (ok: bool)
        ensures
            ok == self.drum_ok(),
    {
        self.format.bit_depth > 0 && 0 < self.data.len() / (self.format.bit_depth as usize)
    }
}

impl SoundBank {
    /// The bank holds waveform `index` whole.
    pub open spec fn has_wave(&self, index: int) -> bool {
        0 <= index && (index + 1) * WAVE_LEN <= self.wave100@.len()
    }

    /// Waveform `index`, as the bank stores it.
    pub open spec fn wave(&self, index: int) -> Seq<u8> {
        self.wave100@.subrange(index * WAVE_LEN, (index + 1) * WAVE_LEN)
    }

    /// The bank holds drum sample `index`, and a drum can play it.
    pub open spec fn has_drum(&self, index: int) -> bool {
        0 <= index < self.samples@.len() && self.samples@[index].drum_ok()
    }

    /// The bank holds what track `t` of `song` plays.
    pub open spec fn serves_track(&self, song: Song, t: int) -> bool {
        if t < MELODIC_TRACKS {
            self.has_wave(song.tracks[t].inst.inst as int)
        } else {
            self.has_drum(song.tracks[t].inst.inst as int)
        }
    }

    /// The bank holds the waveform of every melodic track of `song` and
    /// the sample of every drum channel.
    pub open spec fn serves(&self, song: Song) -> bool {
        forall|t: int| 0 <= t < TRACKS ==> #[trigger] self.serves_track(song, t)
    }

    pub fn get_wave(&self, index: usize) -> (r: &[u8])
        requires
            self.has_wave(index as int),
        ensures
            r@ == self.wave(index as int),
    {
        let size = self.wave100.len();
        slice_subrange(self.wave100.as_slice(), index * WAVE_LEN, (index + 1) * WAVE_LEN)
    }

    pub fn can_serve(&self, song: &Song) -> (ok: bool)
        ensures
            ok == self.serves(*song),
    {
        let mut t: usize = 0;
        while t < TRACKS
            invariant
                t <= TRACKS,
                forall|k: int| 0 <= k < t ==> #[trigger] self.serves_track(*song, k),
            decreases TRACKS - t,
        {
            let index = song.tracks[t].inst.inst as usize;
            let ok = if t < MELODIC_TRACKS {
                (index + 1) * WAVE_LEN <= self.wave100.len()
            } else {
                index < self.samples.len() && self.samples[index].is_drum_ok()
            };
            if !ok {
                assert(!self.serves_track(*song, t as int));
                return false;
            }
            t += 1;
        }
        true
    }
}

} // verus!
