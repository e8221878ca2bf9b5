//! The expanded wavetable of a melodic instrument: eight regions, one for
//! each octave, each made by reading the instrument's 256-sample waveform
//! at a fixed stride.
//!
//! Every region is read from the waveform itself, never from another
//! region, and the read index wraps at the length of the waveform, not at
//! the length of the region.

use vstd::prelude::*;
use crate::voice::{LENS, OFFS, TABLE_LEN, WAVE_LEN};

verus! {

/// The octave whose region holds index `k` of the table.
pub open spec fn region_of(k: int) -> int {
    if k < OFFS[1] {
        0
    } else if k < OFFS[2] {
        1
    } else if k < OFFS[3] {
        2
    } else if k < OFFS[4] {
        3
    } else if k < OFFS[5] {
        4
    } else if k < OFFS[6] {
        5
    } else if k < OFFS[7] {
        6
    } else {
        7
    }
}

/// The stride at which `octave`'s region reads the waveform.
pub open spec fn stride(octave: int) -> int {
    WAVE_LEN as int / LENS[octave] as int
}

/// The index of the waveform that index `k` of the table is read from.
pub open spec fn source_index(k: int) -> int {
    let octave = region_of(k);
    ((k - OFFS[octave]) * stride(octave)) % (WAVE_LEN as int)
}

/// The expanded wavetable of a waveform of at least 256 samples.
pub open spec fn wavetable(wave: Seq<u8>) -> Seq<u8> {
    Seq::new(TABLE_LEN as nat, |k: int| wave[source_index(k)])
}

/// The sample bank holds signed samples, the voices read unsigned ones:
/// the two differ in the top bit.
pub open spec fn flip_sign(sample: u8) -> u8 {
    sample ^ 128
}

/// A run of samples with the top bit of each flipped.
pub open spec fn flipped(samples: Seq<u8>) -> Seq<u8> {
    Seq::new(samples.len(), |i: int| flip_sign(samples[i]))
}

/// A region times its stride covers the waveform once.
pub proof fn lemma_stride(octave: int)
    requires
        0 <= octave < 8,
    ensures
        stride(octave) > 0,
        stride(octave) * LENS[octave] == WAVE_LEN,
        OFFS[octave] + LENS[octave] <= TABLE_LEN,
        octave < 7 ==> OFFS[octave] + LENS[octave] == OFFS[octave + 1],
        octave == 7 ==> OFFS[octave] + LENS[octave] == TABLE_LEN,
{
    if octave == 0 {
        assert(LENS[0] == 256 && OFFS[0] == 0);
        assert(256int / 256 == 1);
        assert(stride(0) == 1);
    } else if octave == 1 {
        assert(LENS[1] == 256 && OFFS[1] == 256);
        assert(256int / 256 == 1);
        assert(stride(1) == 1);
    } else if octave == 2 {
        assert(LENS[2] == 128 && OFFS[2] == 512);
        assert(256int / 128 == 2);
        assert(stride(2) == 2);
    } else if octave == 3 {
        assert(LENS[3] == 128 && OFFS[3] == 640);
        assert(256int / 128 == 2);
        assert(stride(3) == 2);
    } else if octave == 4 {
        assert(LENS[4] == 64 && OFFS[4] == 768);
        assert(256int / 64 == 4);
        assert(stride(4) == 4);
    } else if octave == 5 {
        assert(LENS[5] == 32 && OFFS[5] == 832);
        assert(256int / 32 == 8);
        assert(stride(5) == 8);
    } else if octave == 6 {
        assert(LENS[6] == 16 && OFFS[6] == 864);
        assert(256int / 16 == 16);
        assert(stride(6) == 16);
    } else {
        assert(LENS[7] == 8 && OFFS[7] == 880);
        assert(256int / 8 == 32);
        assert(stride(7) == 32);
    }
    let step = stride(octave);
    let size = LENS[octave] as int;
    assert(step * size == 256) by (nonlinear_arith)
        requires
            (step == 1 && size == 256) || (step == 2 && size == 128) || (step == 4 && size == 64)
                || (step == 8 && size == 32) || (step == 16 && size == 16) || (step == 32 && size
                == 8),
    ;
}

/// Index `i` of `octave`'s region lies in that region and is read from
/// index `i * stride` of the waveform.
pub proof fn lemma_region_source(octave: int, i: int)
    requires
        0 <= octave < 8,
        0 <= i < LENS[octave],
    ensures
        0 <= OFFS[octave] + i < TABLE_LEN,
        region_of(OFFS[octave] + i) == octave,
        source_index(OFFS[octave] + i) == i * stride(octave),
        0 <= i * stride(octave) < WAVE_LEN,
{
    let step = stride(octave);
    let size = LENS[octave] as int;
    lemma_stride(octave);
    assert(0 <= i * step < 256) by (nonlinear_arith)
        requires
            0 <= i < size,
            step * size == 256,
            step > 0,
    ;
}

/// Every index of the table has its region, and is read from inside the
/// waveform.
pub proof fn lemma_source_index_bounds(k: int)
    requires
        0 <= k < TABLE_LEN,
    ensures
        0 <= region_of(k) < 8,
        OFFS[region_of(k)] <= k < OFFS[region_of(k)] + LENS[region_of(k)],
        0 <= source_index(k) < WAVE_LEN,
{
}

/// The first two regions are copies of the waveform.
pub proof fn lemma_first_regions_copy(wave: Seq<u8>)
    requires
        wave.len() >= WAVE_LEN,
    ensures
        wavetable(wave).subrange(0, 256) == wave.subrange(0, 256),
        wavetable(wave).subrange(256, 512) == wave.subrange(0, 256),
{
    assert forall|i: int| 0 <= i < 256 implies wavetable(wave)[i] == wave[i] && wavetable(
        wave,
    )[256 + i] == wave[i] by {
        lemma_region_source(0, i);
        lemma_region_source(1, i);
    }
    assert(wavetable(wave).subrange(0, 256) =~= wave.subrange(0, 256));
    assert(wavetable(wave).subrange(256, 512) =~= wave.subrange(0, 256));
}

/// The table is a function of the first 256 samples alone: waveforms
/// that agree there expand to the same table, however often it is built.
pub proof fn lemma_wavetable_deterministic(a: Seq<u8>, b: Seq<u8>)
    requires
        a.len() >= WAVE_LEN,
        b.len() >= WAVE_LEN,
        a.subrange(0, 256) == b.subrange(0, 256),
    ensures
        wavetable(a) == wavetable(b),
{
    assert forall|k: int| 0 <= k < TABLE_LEN implies wavetable(a)[k] == wavetable(b)[k] by {
        lemma_source_index_bounds(k);
        let j = source_index(k);
        assert(a[j] == a.subrange(0, 256)[j]);
        assert(b[j] == b.subrange(0, 256)[j]);
    }
    assert(wavetable(a) =~= wavetable(b));
}

/// Expanding a table again gives the same table.
pub proof fn lemma_wavetable_idempotent(wave: Seq<u8>)
    requires
        wave.len() >= WAVE_LEN,
    ensures
        wavetable(wavetable(wave)) == wavetable(wave),
{
    lemma_first_regions_copy(wave);
    lemma_wavetable_deterministic(wavetable(wave), wave);
}

} // verus!
