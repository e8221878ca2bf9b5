//! Conversions from the song format's 8-bit key, volume and pan encodings
//! to frequencies in Hz and to gains in centibel.

use vstd::prelude::*;

verus! {

/// Base pitch of each of the twelve semitones of an octave.
pub const FRQ_TBL: [i16; 12] = [261, 278, 294, 311, 329, 349, 371, 391, 414, 440, 466, 494];

/// Pan positions: entry 6 is the centre.
pub const PAN_TBL: [i16; 13] = [0, 43, 86, 129, 172, 215, 256, 297, 340, 383, 426, 469, 512];

/// `256 * 2^(octave - 3)` for each of the eight octaves.
pub const OCT_SCALE: [i32; 8] = [32, 64, 128, 256, 512, 1024, 2048, 4096];

/// First key that lies above the highest octave.
pub const KEY_LIMIT: u8 = 96;

/// Key, volume or pan byte that stands for "leave as it is".
pub const NO_CHANGE: u8 = 255;

/// Number of entries of the pan table.
pub const PAN_LIMIT: u8 = 13;

/// The factor `256 * 2^(octave - 3)`. For the octaves below the third the
/// power is a fraction, yet the product with 256 is the whole number
/// `32 * 2^octave`, so truncation never loses anything.
pub open spec fn octave_scale(octave: int) -> int
    decreases octave,
{
    if octave <= 0 {
        32
    } else {
        2 * octave_scale(octave - 1)
    }
}

/// Pitch of a key before the instrument's offset is applied.
pub open spec fn octave_pitch(key: int) -> int {
    FRQ_TBL[key % 12] * octave_scale(key / 12)
}

/// Frequency in Hz of a melodic key played on an instrument with
/// frequency offset `a`.
pub open spec fn key_frequency(key: int, a: int) -> int {
    octave_pitch(key) + (1000 - a)
}

/// Frequency in Hz of a drum key.
pub open spec fn drum_frequency(key: int) -> int {
    key * 800 + 100
}

/// Pan in centibel-like units: negative is left of the centre.
pub open spec fn pan_centibel(pan: int) -> int {
    (PAN_TBL[pan] - 256) * 10
}

/// Volume in centibel, never above zero.
pub open spec fn volume_centibel(vol: int) -> int {
    (vol - 255) * 8
}

/// What a pan takes off the left and off the right side, in centibel. A
/// pan only ever turns one side down, the side it leads away from, and
/// never turns a side up.
pub open spec fn pan_attenuation(pan: int) -> (int, int) {
    if pan > 0 {
        (-pan, 0)
    } else if pan < 0 {
        (0, pan)
    } else {
        (0, 0)
    }
}

/// The scale table holds `octave_scale` for every octave.
pub proof fn lemma_octave_scale_table(octave: int)
    requires
        0 <= octave < 8,
    ensures
        OCT_SCALE[octave] == octave_scale(octave),
        32 <= octave_scale(octave) <= 4096,
{
    reveal_with_fuel(octave_scale, 9);
}

/// Octave and semitone of a key.
pub fn org_key_to_oct_pitch(key: u8) -> (r: (u8, u8))
    ensures
        r.0 == key / 12,
        r.1 == key % 12,
{
    (key / 12, key % 12)
}

/// Frequency in Hz of a melodic key on an instrument with frequency
/// offset `a`.
pub fn org_key_to_freq(key: u8, a: i16) -> (r: i32)
    requires
        key < KEY_LIMIT,
    ensures
        r == key_frequency(key as int, a as int),
{
    let (oct, pitch) = org_key_to_oct_pitch(key);
    proof {
        lemma_octave_scale_table(oct as int);
    }
    let freq: i32 = FRQ_TBL[pitch as usize] as i32;
    let scale: i32 = OCT_SCALE[oct as usize];
    assert(freq * scale <= 494 * 4096) by (nonlinear_arith)
        requires
            0 <= freq <= 494,
            0 <= scale <= 4096,
    ;
    assert(0 <= freq * scale) by (nonlinear_arith)
        requires
            0 <= freq,
            0 <= scale,
    ;
    freq * scale + (1000 - a as i32)
}

/// Frequency in Hz of a drum key.
pub fn org_key_to_drum_freq(key: u8) -> (r: i32)
    ensures
        r == drum_frequency(key as int),
{
    key as i32 * 800 + 100
}

/// Pan of one of the thirteen positions.
pub fn org_pan_to_pan(pan: u8) -> (r: i32)
    requires
        pan < PAN_LIMIT,
    ensures
        r == pan_centibel(pan as int),
        -2560 <= r <= 2560,
{
    (PAN_TBL[pan as usize] as i32 - 256) * 10
}

/// Volume in centibel of a volume byte.
pub fn org_vol_to_vol(vol: u8) -> (r: i32)
    ensures
        r == volume_centibel(vol as int),
        -2040 <= r <= 0,
{
    (vol as i32 - 255) * 8
}

/// The gains in centibel of the left and of the right side under a pan:
/// zero for a side that is left as it is, below zero for the side that
/// is turned down.
pub fn pan_sides(pan: i32) -> (r: (i32, i32))
    ensures
        r.0 == pan_attenuation(pan as int).0,
        r.1 == pan_attenuation(pan as int).1,
        r.0 <= 0,
        r.1 <= 0,
        r.0 == 0 || r.1 == 0,
{
    if pan > 0 {
        (-pan, 0)
    } else if pan < 0 {
        (0, pan)
    } else {
        (0, 0)
    }
}

/// Within one octave a higher key never sounds lower.
pub proof fn lemma_key_frequency_grows_within_octave(low: int, high: int, a: int)
    requires
        0 <= low <= high < 96,
        low / 12 == high / 12,
    ensures
        key_frequency(low, a) <= key_frequency(high, a),
{
    let scale = octave_scale(low / 12);
    lemma_octave_scale_table(low / 12);
    let p = FRQ_TBL[low % 12] as int;
    let q = FRQ_TBL[high % 12] as int;
    assert(p <= q);
    assert(p * scale <= q * scale) by (nonlinear_arith)
        requires
            p <= q,
            0 <= scale,
    ;
}

/// One octave up doubles the pitch; the instrument's offset is added
/// afterwards and is the same for both keys.
pub proof fn lemma_octave_doubles_pitch(key: int, a: int)
    requires
        0 <= key < 84,
    ensures
        octave_pitch(key + 12) == 2 * octave_pitch(key),
        key_frequency(key + 12, a) - (1000 - a) == 2 * (key_frequency(key, a) - (1000 - a)),
{
    let base = FRQ_TBL[key % 12] as int;
    let scale = octave_scale(key / 12);
    assert((key + 12) % 12 == key % 12);
    assert((key + 12) / 12 == key / 12 + 1);
    assert(octave_scale(key / 12 + 1) == 2 * scale);
    assert(base * (2 * scale) == 2 * (base * scale)) by (nonlinear_arith);
}

/// Over the whole range of keys a higher key never sounds lower: the
/// first key of an octave lies above the last key of the octave below.
pub proof fn lemma_key_frequency_grows(low: int, high: int, a: int)
    requires
        0 <= low <= high < 96,
    ensures
        key_frequency(low, a) <= key_frequency(high, a),
    decreases high - low,
{
    if low / 12 == high / 12 {
        lemma_key_frequency_grows_within_octave(low, high, a);
    } else {
        // the last key of low's octave, then the first key of the next one
        let last = (low / 12) * 12 + 11;
        let first = last + 1;
        assert(low <= last < first <= high);
        assert(last / 12 == low / 12 && last % 12 == 11);
        assert(first / 12 == low / 12 + 1 && first % 12 == 0);
        lemma_key_frequency_grows_within_octave(low, last, a);
        let scale = octave_scale(low / 12);
        lemma_octave_scale_table(low / 12);
        assert(octave_scale(low / 12 + 1) == 2 * scale);
        assert(494 * scale <= 261 * (2 * scale)) by (nonlinear_arith)
            requires
                0 <= scale,
        ;
        assert(key_frequency(last, a) <= key_frequency(first, a));
        lemma_key_frequency_grows(first, high, a);
    }
}

} // verus!
